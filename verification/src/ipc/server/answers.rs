//! What each request comes to, from its reading to its answer.

use crate::container::{InfoView, Kill, ManagerView, Signal};
use crate::error::AppErrorView;
use crate::ipc::protocol::{RequestView, ResponseView};
use crate::ipc::server::{
    Action, ActionView, Event, EventView, Launch, LaunchView, Phase, PhaseView, Pty, Reaped, Step,
};
use crate::sandbox::ConfigView;
use crate::script::OpView;
use crate::storage::SaveView;
use crate::{container, error, ipc, sandbox, storage, text};
use vstd::prelude::*;

verus! {

/// The only action is to send this answer, and the connection is done with.
pub open spec fn ends_with(step: Step, response: ResponseView) -> bool {
    step.phase is Done && step.actions == seq![ActionView::Respond(response)]
}

/// The only action is to save this of a container, under its identifier.
pub open spec fn saves(step: Step, info: InfoView) -> bool {
    step.actions == seq![
        ActionView::Save(
            SaveView {
                dir: "/var/lib/cb/containers"@,
                path: text::joined_path("/var/lib/cb/containers"@, info.id + ".json"@),
                metadata: info,
            },
        ),
    ]
}

/// The line of a container shows its identifier, cut to twelve bytes, its
/// state, and the whole of its command.
pub proof fn line_shows_the_container(info: InfoView)
    ensures
        ipc::server::list_line(info) == text::byte_prefix(info.id, 12) + " ["@ + info.state + "] "@
            + text::joined(info.command, " "@),
{
}

/// A word more of the command is a word more of the line.
pub proof fn line_shows_every_word(info: InfoView, word: Seq<char>)
    ensures
        ({
            let longer = InfoView { command: info.command.push(word), ..info };
            &&& info.command.len() > 0 ==> ipc::server::list_line(longer)
                == ipc::server::list_line(info) + " "@ + word
            &&& info.command.len() == 0 ==> ipc::server::list_line(longer)
                == ipc::server::list_line(info) + word
        }),
{
    let longer = InfoView { command: info.command.push(word), ..info };
    text::laws::joining_appends(info.command, word, " "@);
    let head = text::byte_prefix(info.id, 12) + " ["@ + info.state + "] "@;
    assert(ipc::server::list_line(info) =~= head + text::joined(info.command, " "@));
    assert(ipc::server::list_line(longer) =~= head + text::joined(longer.command, " "@));
    if info.command.len() > 0 {
        assert(ipc::server::list_line(longer) =~= ipc::server::list_line(info) + " "@ + word);
    } else {
        assert(ipc::server::list_line(longer) =~= ipc::server::list_line(info) + word);
    }
}

/// Whether a command has a word, and none of its words has a space in it.
pub open spec fn is_unambiguous(command: Seq<Seq<char>>) -> bool {
    command.len() > 0 && forall|i: int|
        0 <= i < command.len() ==> !(#[trigger] command[i]).contains(' ')
}

/// Two containers of which only the commands differ have different lines, as
/// long as no word has a space in it.
pub proof fn lines_tell_commands_apart(a: InfoView, b: InfoView)
    requires
        a.id == b.id,
        a.state == b.state,
        is_unambiguous(a.command),
        is_unambiguous(b.command),
        ipc::server::list_line(a) == ipc::server::list_line(b),
    ensures
        a.command == b.command,
{
    let head = text::byte_prefix(a.id, 12) + " ["@ + a.state + "] "@;
    let x = text::joined(a.command, " "@);
    let y = text::joined(b.command, " "@);
    assert(ipc::server::list_line(a) =~= head + x);
    assert(ipc::server::list_line(b) =~= head + y);
    assert(x =~= (head + x).skip(head.len() as int));
    assert(y =~= (head + y).skip(head.len() as int));
    reveal_strlit(" ");
    assert(" "@ =~= seq![' ']);
    text::laws::joined_words_are_told_apart(a.command, b.command, ' ');
}

/// Whether `lines` shows each of the containers once, and nothing else, in the
/// order of `entries`.
pub open spec fn shows_all(
    lines: Seq<Seq<char>>,
    entries: Seq<InfoView>,
    containers: Map<Seq<char>, InfoView>,
) -> bool {
    &&& lines.len() == entries.len()
    &&& forall|i: int|
        0 <= i < lines.len() ==> #[trigger] lines[i] == text::byte_prefix(entries[i].id, 12)
            + " ["@ + entries[i].state + "] "@ + text::joined(entries[i].command, " "@)
    &&& forall|i: int|
        0 <= i < entries.len() ==> containers.contains_key((#[trigger] entries[i]).id)
            && containers[entries[i].id] == entries[i]
    &&& forall|i: int, j: int|
        0 <= i < j < entries.len() ==> (#[trigger] entries[i]).id != (#[trigger] entries[j]).id
    &&& forall|id: Seq<char>| #[trigger]
        containers.contains_key(id) ==> exists|i: int|
            0 <= i < entries.len() && (#[trigger] entries[i]).id == id
}

/// A request for the list is answered with a line for each container, whether
/// it runs or not, and changes nothing.
pub proof fn list_shows_every_container(
    manager: ManagerView,
    all: bool,
    nanos: u32,
    step: Step,
) -> (entries: Seq<InfoView>)
    requires
        ipc::server::is_step(
            manager,
            PhaseView::Idle,
            EventView::Requested { request: RequestView::ListRequest { all }, nanos },
            step,
        ),
    ensures
        step.manager == manager,
        step.phase is Done,
        step.actions.len() == 1,
        step.actions[0] matches ActionView::Respond(ResponseView::ListResponse { items })
            && shows_all(items, entries, manager.containers),
{
    let entries = choose|entries: Seq<InfoView>| #[trigger]
        container::lists(entries, manager.containers) && step == ipc::server::answered(
            manager,
            ResponseView::ListResponse { items: ipc::server::list_items(entries) },
        );
    container::by_id_finds(entries);
    let items = ipc::server::list_items(entries);
    assert(forall|i: int|
        0 <= i < items.len() ==> #[trigger] items[i] == ipc::server::list_line(entries[i]));
    assert(shows_all(items, entries, manager.containers));
    entries
}

/// What a container is given: the lowest address that is free.
pub open spec fn is_given(pool: Set<u8>, n: u8) -> bool {
    &&& 2 <= n <= 254
    &&& !pool.contains(n)
    &&& forall|k: u8| 2 <= k < n ==> #[trigger] pool.contains(k)
}

proof fn lemma_given(pool: Set<u8>, n: u8)
    requires
        is_given(pool, n),
    ensures
        container::first_free(pool) == Some(n),
{
    assert forall|k: u8| #[trigger] container::assignable(k) && k < n implies pool.contains(k) by {
        assert(2 <= k < n);
    }
    assert(container::is_lowest_free(pool, n));
    let m = choose|m: u8| container::is_lowest_free(pool, m);
    assert(container::is_lowest_free(pool, m));
    if m < n {
        assert(container::assignable(m));
    } else if n < m {
        assert(container::assignable(n));
    }
}

/// A configuration for the container that is being started, with these as its
/// standard streams.
pub open spec fn configures(cfg: ConfigView, launch: LaunchView, stdio: Option<i32>) -> bool {
    &&& cfg.container_id == launch.id
    &&& cfg.command == launch.command
    &&& cfg.memory_limit == launch.memory_limit
    &&& cfg.hostname == "cb-"@ + text::byte_prefix(launch.id, 8)
    &&& cfg.ip == launch.ip
    &&& cfg.stdio == stdio
}

/// A request to run a command takes the lowest free address, makes an
/// identifier out of the time, and keeps the command and the memory limit as
/// they are. If a user talks to the command a terminal is opened first; if not
/// the container is launched at once. Nothing else changes. If no address is
/// free it is refused.
pub proof fn run_request_is_taken_as_given(
    manager: ManagerView,
    command: Seq<Seq<char>>,
    memory_limit: Seq<char>,
    interactive: bool,
    nanos: u32,
    n: u8,
    step: Step,
)
    requires
        ipc::server::is_step(
            manager,
            PhaseView::Idle,
            EventView::Requested {
                request: RequestView::RunRequest { command, memory_limit, interactive },
                nanos,
            },
            step,
        ),
    ensures
        is_given(manager.pool, n) ==> {
            let launch = LaunchView {
                id: text::padded_hex(nanos as nat, 12),
                command,
                memory_limit,
                ip: "10.0.0."@ + text::decimal(n as nat),
            };
            &&& step.manager.containers == manager.containers
            &&& step.manager.pool == manager.pool.insert(n)
            &&& interactive ==> step.phase == (PhaseView::OpeningPty { launch }) && step.actions
                == seq![ActionView::OpenPty]
            &&& !interactive ==> step.phase == (PhaseView::Launching { launch, pty: None })
                && step.actions.len() == 1 && (step.actions[0] matches ActionView::Launch(cfg)
                && configures(cfg, launch, None))
        },
        (forall|k: u8| 2 <= k <= 254 ==> #[trigger] manager.pool.contains(k)) ==> step.manager
            == manager && ends_with(
            step,
            ResponseView::ErrorResponse { message: "IP 地址已耗尽"@ },
        ),
{
    if is_given(manager.pool, n) {
        lemma_given(manager.pool, n);
    }
    if forall|k: u8| 2 <= k <= 254 ==> #[trigger] manager.pool.contains(k) {
        assert forall|k: u8| !container::is_lowest_free(manager.pool, k) by {
            if container::assignable(k) {
                assert(manager.pool.contains(k));
            }
        }
    }
}

/// The terminal that was opened for a container becomes its standard streams;
/// all else of its configuration is as it would be without one. If none could
/// be opened, the address is given back and the user told why.
pub proof fn terminal_is_handed_to_the_container(
    manager: ManagerView,
    launch: LaunchView,
    pty: Result<Pty, AppErrorView>,
    step: Step,
)
    requires
        ipc::server::is_step(
            manager,
            PhaseView::OpeningPty { launch },
            EventView::PtyOpened { pty },
            step,
        ),
    ensures
        step.manager.containers == manager.containers,
        match pty {
            Ok(pty) => {
                &&& step.manager.pool == manager.pool
                &&& step.phase == (PhaseView::Launching { launch, pty: Some(pty) })
                &&& step.actions.len() == 1
                &&& step.actions[0] matches ActionView::Launch(cfg) && configures(
                    cfg,
                    launch,
                    Some(pty.slave),
                )
            },
            Err(e) => {
                &&& ends_with(step, ResponseView::ErrorResponse { message: error::error_text(e) })
                &&& match container::host_octet_of(launch.ip) {
                    Some(n) => step.manager.pool == manager.pool.remove(n),
                    None => step.manager.pool == manager.pool,
                }
            },
        },
{
}

/// A container that has been started is saved as running, with all that it was
/// started with. One that has not gives its address back, and closes both ends
/// of its terminal before the user is told why.
pub proof fn start_is_saved_or_undone(
    manager: ManagerView,
    launch: LaunchView,
    pty: Option<Pty>,
    pid: Result<u32, AppErrorView>,
    step: Step,
)
    requires
        ipc::server::is_step(
            manager,
            PhaseView::Launching { launch, pty },
            EventView::Launched { pid },
            step,
        ),
    ensures
        step.manager.containers == manager.containers,
        match pid {
            Ok(pid) => {
                let info = InfoView {
                    id: launch.id,
                    command: launch.command,
                    state: "Running"@,
                    memory_limit: launch.memory_limit,
                    pid: Some(pid),
                    ip: Some(launch.ip),
                };
                &&& step.manager.pool == manager.pool
                &&& step.phase == (PhaseView::SavingRun { info, pty })
                &&& saves(step, info)
            },
            Err(e) => {
                let answer = ActionView::Respond(
                    ResponseView::ErrorResponse { message: error::error_text(e) },
                );
                &&& step.phase is Done
                &&& match container::host_octet_of(launch.ip) {
                    Some(n) => step.manager.pool == manager.pool.remove(n),
                    None => step.manager.pool == manager.pool,
                }
                &&& step.actions == (match pty {
                    Some(pty) => seq![
                        ActionView::CloseFd { fd: pty.master },
                        ActionView::CloseFd { fd: pty.slave },
                        answer,
                    ],
                    None => seq![answer],
                })
            },
        },
{
    if let Err(e) = pid {
        let answer = ActionView::Respond(
            ResponseView::ErrorResponse { message: error::error_text(e) },
        );
        if let Some(pty) = pty {
            assert(step.actions =~= seq![
                ActionView::CloseFd { fd: pty.master },
                ActionView::CloseFd { fd: pty.slave },
                answer,
            ]);
        } else {
            assert(step.actions =~= seq![answer]);
        }
    }
}

/// A container whose start has been saved is recorded as it was saved, among
/// all the others. Its user is told its identifier, or, if there is a
/// terminal, connected with it once the container's end has been closed.
pub proof fn start_is_recorded_as_saved(
    manager: ManagerView,
    info: InfoView,
    pty: Option<Pty>,
    step: Step,
)
    requires
        ipc::server::is_step(
            manager,
            PhaseView::SavingRun { info, pty },
            EventView::Saved,
            step,
        ),
    ensures
        step.manager.containers == manager.containers.insert(info.id, info),
        step.manager.pool == manager.pool,
        step.phase is Done,
        match pty {
            Some(pty) => step.actions == seq![
                ActionView::CloseFd { fd: pty.slave },
                ActionView::Forward { master: pty.master },
            ],
            None => step.actions == seq![
                ActionView::Respond(ResponseView::RunResponse { container_id: info.id }),
            ],
        },
{
}

/// Whatever is asked for is what is launched, and what is recorded: the
/// configuration that a connection launches has the command and the memory
/// limit of its request, and as standard streams the terminal that was opened,
/// or none; and under its identifier the container is recorded with that
/// command, that limit, the configuration's address, and the process that it
/// became. The managers stand for what other connections have made of the
/// state in between.
pub proof fn what_is_asked_for_is_launched_and_recorded(
    managers: (ManagerView, ManagerView, ManagerView, ManagerView),
    command: Seq<Seq<char>>,
    memory_limit: Seq<char>,
    interactive: bool,
    nanos: u32,
    pty: Pty,
    pid: u32,
    steps: (Step, Step, Step, Step),
)
    requires
        ipc::server::is_step(
            managers.0,
            PhaseView::Idle,
            EventView::Requested {
                request: RequestView::RunRequest { command, memory_limit, interactive },
                nanos,
            },
            steps.0,
        ),
        !(steps.0.phase is Done),
        interactive ==> ipc::server::is_step(
            managers.1,
            steps.0.phase,
            EventView::PtyOpened { pty: Ok(pty) },
            steps.1,
        ),
        !interactive ==> steps.1 == steps.0,
        ipc::server::is_step(
            managers.2,
            steps.1.phase,
            EventView::Launched { pid: Ok(pid) },
            steps.2,
        ),
        ipc::server::is_step(managers.3, steps.2.phase, EventView::Saved, steps.3),
    ensures
        steps.1.actions.len() == 1,
        steps.1.actions[0] matches ActionView::Launch(cfg) && {
            let recorded = steps.3.manager.containers;
            &&& cfg.command == command
            &&& cfg.memory_limit == memory_limit
            &&& cfg.stdio == (if interactive {
                Some(pty.slave)
            } else {
                None
            })
            &&& recorded.contains_key(cfg.container_id)
            &&& recorded[cfg.container_id] == (InfoView {
                id: cfg.container_id,
                command,
                state: "Running"@,
                memory_limit,
                pid: Some(pid),
                ip: Some(cfg.ip),
            })
            &&& forall|other: Seq<char>|
                other != cfg.container_id ==> recorded.contains_key(other)
                    == managers.3.containers.contains_key(other) && (recorded.contains_key(other)
                    ==> #[trigger] recorded[other] == managers.3.containers[other])
        },
{
}

/// A container is first asked to end, if it has a process, and otherwise
/// recorded as stopped; nothing is done of one that is not known. How long the
/// user would wait makes no difference.
pub proof fn stop_request_asks_first(
    manager: ManagerView,
    id: Seq<char>,
    timeout: u64,
    nanos: u32,
    step: Step,
)
    requires
        ipc::server::is_step(
            manager,
            PhaseView::Idle,
            EventView::Requested {
                request: RequestView::StopRequest { container_id: id, timeout },
                nanos,
            },
            step,
        ),
    ensures
        step.manager.pool == manager.pool,
        !manager.containers.contains_key(id) ==> step.manager == manager && ends_with(
            step,
            ResponseView::ErrorResponse { message: "容器不存在: "@ + id },
        ),
        manager.containers.contains_key(id) ==> match manager.containers[id].pid {
            Some(pid) => {
                &&& step.manager == manager
                &&& step.phase == (PhaseView::Terminating { id })
                &&& step.actions == seq![
                    ActionView::Kill(Kill { pid: pid as i32, signal: Signal::Terminate }),
                ]
            },
            None => is_recorded_as_stopped(manager, id, step),
        },
{
}

/// Whether a container, which is known, is recorded and saved as stopped, with
/// no process and all else as it was.
pub open spec fn is_recorded_as_stopped(manager: ManagerView, id: Seq<char>, step: Step) -> bool {
    let info = manager.containers[id];
    let now = InfoView {
        id: info.id,
        command: info.command,
        state: "Stopped"@,
        memory_limit: info.memory_limit,
        pid: None,
        ip: info.ip,
    };
    &&& step.manager.containers == manager.containers.insert(info.id, now)
    &&& step.manager.pool == manager.pool
    &&& step.phase == (PhaseView::SavingStop { id })
    &&& saves(step, now)
}

/// A container that was asked to end has five seconds. One that could not be
/// asked is recorded as stopped. When the time is over it is killed if it still
/// has a process, and its user is told that it is stopping; the state is left
/// as it is. When its stop has been saved its user is told that it is stopped.
pub proof fn stopping_goes_on(
    manager: ManagerView,
    id: Seq<char>,
    sent: bool,
    asked: Step,
    waited: Step,
    saved: Step,
)
    requires
        ipc::server::is_step(
            manager,
            PhaseView::Terminating { id },
            EventView::Signalled { sent },
            asked,
        ),
        ipc::server::is_step(manager, PhaseView::Grace { id }, EventView::Woke, waited),
        ipc::server::is_step(manager, PhaseView::SavingStop { id }, EventView::Saved, saved),
    ensures
        sent ==> asked.manager == manager && asked.phase == (PhaseView::Grace { id })
            && asked.actions == seq![ActionView::Sleep { seconds: 5 }],
        !sent && manager.containers.contains_key(id) ==> is_recorded_as_stopped(manager, id, asked),
        !sent && !manager.containers.contains_key(id) ==> asked.manager == manager && ends_with(
            asked,
            ResponseView::ErrorResponse { message: "容器不存在: "@ + id },
        ),
        waited.manager == manager,
        waited.phase is Done,
        ({
            let answer = ActionView::Respond(
                ResponseView::StopResponse { container_id: id, state: "Stopping"@ },
            );
            let killed = ActionView::Kill(
                Kill { pid: manager.containers[id].pid->0 as i32, signal: Signal::Kill },
            );
            waited.actions == (if manager.containers.contains_key(id)
                && manager.containers[id].pid is Some {
                seq![killed, answer]
            } else {
                seq![answer]
            })
        }),
        saved.manager == manager,
        ends_with(saved, ResponseView::StopResponse { container_id: id, state: "Stopped"@ }),
{
}

/// A container that has no process is cleaned up after: its root is unmounted,
/// its directory, its control group and its metadata are removed, in this
/// order. One that has a process, and one that is not known, is refused.
pub proof fn remove_request_cleans_up(
    manager: ManagerView,
    id: Seq<char>,
    nanos: u32,
    step: Step,
)
    requires
        ipc::server::is_step(
            manager,
            PhaseView::Idle,
            EventView::Requested {
                request: RequestView::RemoveRequest { container_id: id },
                nanos,
            },
            step,
        ),
    ensures
        step.manager == manager,
        !manager.containers.contains_key(id) ==> ends_with(
            step,
            ResponseView::ErrorResponse { message: "容器不存在: "@ + id },
        ),
        manager.containers.contains_key(id) && manager.containers[id].pid is Some ==> ends_with(
            step,
            ResponseView::ErrorResponse { message: "容器仍在运行，请先 stop: "@ + id },
        ),
        manager.containers.contains_key(id) && manager.containers[id].pid is None ==> {
            let base = text::joined_path("/run/cb/containers"@, id);
            &&& step.phase == (PhaseView::Cleaning { id })
            &&& step.actions == seq![
                ActionView::Clean(
                    seq![
                        OpView::Detach { target: text::joined_path(base, "merged"@) },
                        OpView::RemoveDirAll { path: base },
                        OpView::RemoveDir { path: text::joined_path("/sys/fs/cgroup/cb"@, id) },
                        OpView::RemoveFile {
                            path: text::joined_path("/var/lib/cb/containers"@, id + ".json"@),
                        },
                    ],
                ),
            ]
        },
{
    let base = text::joined_path("/run/cb/containers"@, id);
    assert(ipc::server::removal_script(id) =~= seq![
        OpView::Detach { target: text::joined_path(base, "merged"@) },
        OpView::RemoveDirAll { path: base },
        OpView::RemoveDir { path: text::joined_path("/sys/fs/cgroup/cb"@, id) },
        OpView::RemoveFile {
            path: text::joined_path("/var/lib/cb/containers"@, id + ".json"@),
        },
    ]);
}

/// A container that has been cleaned up after is forgotten, and no other. One
/// that could not be is kept, and the user told why.
pub proof fn cleaned_container_is_forgotten(
    manager: ManagerView,
    id: Seq<char>,
    result: Result<(), AppErrorView>,
    step: Step,
)
    requires
        ipc::server::is_step(
            manager,
            PhaseView::Cleaning { id },
            EventView::Cleaned { result },
            step,
        ),
    ensures
        step.manager.pool == manager.pool,
        match result {
            Ok(_) => step.manager.containers == manager.containers.remove(id) && ends_with(
                step,
                ResponseView::StopResponse { container_id: id, state: "Removed"@ },
            ),
            Err(e) => step.manager == manager && ends_with(
                step,
                ResponseView::ErrorResponse { message: error::error_text(e) },
            ),
        },
{
}

/// An event that a connection does not wait for changes nothing, and nothing is
/// done of it.
pub proof fn other_events_change_nothing(
    manager: ManagerView,
    phase: PhaseView,
    event: EventView,
    step: Step,
)
    requires
        ipc::server::is_step(manager, phase, event, step),
        !ipc::server::history::waits_for(phase, event),
    ensures
        step.manager == manager,
        step.phase == phase,
        step.actions == Seq::<ActionView>::empty(),
{
}

/// A connection waits for one kind of event in each phase, and for none when it
/// is done.
pub proof fn phase_waits_for_one_event(phase: PhaseView, event: EventView)
    ensures
        ipc::server::history::waits_for(phase, event) == (match phase {
            PhaseView::Idle => event is Requested,
            PhaseView::Terminating { .. } => event is Signalled,
            PhaseView::Grace { .. } => event is Woke,
            PhaseView::SavingStop { .. } => event is Saved,
            PhaseView::OpeningPty { .. } => event is PtyOpened,
            PhaseView::Launching { .. } => event is Launched,
            PhaseView::SavingRun { .. } => event is Saved,
            PhaseView::Cleaning { .. } => event is Cleaned,
            PhaseView::Done => false,
        }),
{
}

/// The end of a process changes the one container that it was: its record
/// loses the process and shows the code, and is saved so; its address is free
/// again. The end of any other process changes nothing. Either way there may
/// be another end to hear of.
pub proof fn end_of_a_process_is_recorded(
    before: ManagerView,
    pid: u32,
    code: int,
    after: ManagerView,
    reaped: Reaped,
) -> (id: Seq<char>)
    requires
        ipc::server::is_exit(before, pid, code, after, reaped),
        before.keyed(),
    ensures
        reaped.again,
        reaped.save is None ==> after == before && forall|other: Seq<char>| #[trigger]
            before.containers.contains_key(other) ==> before.containers[other].pid != Some(pid),
        reaped.save is Some ==> {
            let info = before.containers[id];
            let now = InfoView {
                id,
                command: info.command,
                state: "Exited("@ + text::signed_decimal(code) + ")"@,
                memory_limit: info.memory_limit,
                pid: None,
                ip: info.ip,
            };
            &&& before.containers.contains_key(id)
            &&& info.pid == Some(pid)
            &&& after.containers == before.containers.insert(id, now)
            &&& reaped.save->0@ == (SaveView {
                dir: "/var/lib/cb/containers"@,
                path: text::joined_path("/var/lib/cb/containers"@, id + ".json"@),
                metadata: now,
            })
            &&& after.pool == (match info.ip {
                Some(ip) => match container::host_octet_of(ip) {
                    Some(n) => before.pool.remove(n),
                    None => before.pool,
                },
                None => before.pool,
            })
        },
{
    if reaped.save is None {
        assert forall|other: Seq<char>| #[trigger]
            before.containers.contains_key(other) implies before.containers[other].pid != Some(
            pid,
        ) by {
            assert(!before.runs(other, pid));
        }
        Seq::empty()
    } else {
        let plan = reaped.save->0;
        choose|id: Seq<char>| #[trigger]
            before.runs(id, pid) && after == before.after_exit(before.containers[id], code) && plan@
                == storage::save_plan(container::exited(before.containers[id], code))
    }
}

/// The state of a connection is all of what it holds.
pub proof fn connection_is_seen_whole(launch: Launch, phase: Phase, event: Event, action: Action)
    ensures
        launch@.id == launch.id@,
        launch@.command == launch.command.deep_view(),
        launch@.memory_limit == launch.memory_limit@,
        launch@.ip == launch.ip@,
        phase is Idle <==> phase@ is Idle,
        phase is Done <==> phase@ is Done,
        phase matches Phase::Terminating { id } ==> phase@ == (PhaseView::Terminating { id: id@ }),
        phase matches Phase::Grace { id } ==> phase@ == (PhaseView::Grace { id: id@ }),
        phase matches Phase::SavingStop { id } ==> phase@ == (PhaseView::SavingStop { id: id@ }),
        phase matches Phase::Cleaning { id } ==> phase@ == (PhaseView::Cleaning { id: id@ }),
        phase matches Phase::OpeningPty { launch } ==> phase@ == (PhaseView::OpeningPty {
            launch: launch@,
        }),
        phase matches Phase::Launching { launch, pty } ==> phase@ == (PhaseView::Launching {
            launch: launch@,
            pty,
        }),
        phase matches Phase::SavingRun { info, pty } ==> phase@ == (PhaseView::SavingRun {
            info: info@,
            pty,
        }),
        event matches Event::Requested { request, nanos } ==> event@ == (EventView::Requested {
            request: request@,
            nanos,
        }),
        event matches Event::Signalled { sent } ==> event@ == (EventView::Signalled { sent }),
        event is Woke <==> event@ is Woke,
        event is Saved <==> event@ is Saved,
        event matches Event::PtyOpened { pty: Ok(pty) } ==> event@ == (EventView::PtyOpened {
            pty: Ok(pty),
        }),
        event matches Event::PtyOpened { pty: Err(e) } ==> event@ == (EventView::PtyOpened {
            pty: Err(e@),
        }),
        event matches Event::Launched { pid: Ok(pid) } ==> event@ == (EventView::Launched {
            pid: Ok(pid),
        }),
        event matches Event::Launched { pid: Err(e) } ==> event@ == (EventView::Launched {
            pid: Err(e@),
        }),
        event matches Event::Cleaned { result: Ok(r) } ==> event@ == (EventView::Cleaned {
            result: Ok(r),
        }),
        event matches Event::Cleaned { result: Err(e) } ==> event@ == (EventView::Cleaned {
            result: Err(e@),
        }),
        action matches Action::Kill(kill) ==> action@ == ActionView::Kill(kill),
        action matches Action::Sleep { seconds } ==> action@ == (ActionView::Sleep { seconds }),
        action matches Action::Save(plan) ==> action@ == ActionView::Save(plan@),
        action is OpenPty <==> action@ is OpenPty,
        action matches Action::Launch(cfg) ==> action@ == ActionView::Launch(cfg@),
        action matches Action::CloseFd { fd } ==> action@ == (ActionView::CloseFd { fd }),
        action matches Action::Clean(ops) ==> action@ == ActionView::Clean(ops.deep_view()),
        action matches Action::Respond(response) ==> action@ == ActionView::Respond(response@),
        action matches Action::Forward { master } ==> action@ == (ActionView::Forward { master }),
        action.deep_view() == action@,
{
}

/// The daemon and its clients meet at one place.
pub proof fn client_and_daemon_meet()
    ensures
        ipc::server::SOCKET_PATH@ == "/run/cb/ipc.sock"@,
        ipc::client::SOCKET_PATH@ == ipc::server::SOCKET_PATH@,
        sandbox::fs::CONTAINERS_DIR@ == "/run/cb/containers"@,
        sandbox::cgroup::CGROUP_BASE@ == "/sys/fs/cgroup/cb"@,
        storage::STORAGE_DIR@ == "/var/lib/cb/containers"@,
{
}

/// The list can be made just when every identifier can be cut to twelve bytes;
/// those that the daemon makes can be.
pub proof fn list_needs_identifiers_that_can_be_cut(manager: ManagerView, nanos: u32)
    ensures
        ipc::server::is_listable(manager) <==> forall|id: Seq<char>| #[trigger]
            manager.containers.contains_key(id) ==> text::has_byte_prefix(
                manager.containers[id].id,
                12,
            ),
        ipc::server::id_of(nanos) == text::padded_hex(nanos as nat, 12),
{
}

/// Only a request for the list, as the first event of a connection, asks for
/// it.
pub proof fn list_is_asked_for_at_first(phase: PhaseView, event: EventView)
    ensures
        ipc::server::asks_for_list(phase, event) <==> phase is Idle && (
        event matches EventView::Requested { request, .. } && request is ListRequest),
{
}

/// A connection is in order just when what it starts has an identifier that can
/// be cut and an address, and what it has started a process and an address.
pub proof fn order_is_having_what_is_needed(phase: PhaseView)
    ensures
        phase matches PhaseView::OpeningPty { launch } ==> (ipc::server::in_order(phase) <==>
            sandbox::has_short_id(launch.id) && container::host_octet_of(launch.ip) is Some),
        phase matches PhaseView::Launching { launch, pty } ==> (ipc::server::in_order(phase) <==>
            sandbox::has_short_id(launch.id) && container::host_octet_of(launch.ip) is Some),
        phase matches PhaseView::SavingRun { info, pty } ==> (ipc::server::in_order(phase) <==>
            info.pid is Some && info.ip is Some && container::host_octet_of(info.ip->0) is Some),
        phase is Idle || phase is Terminating || phase is Grace || phase is SavingStop
            || phase is Cleaning || phase is Done ==> ipc::server::in_order(phase),
{
}

} // verus!
