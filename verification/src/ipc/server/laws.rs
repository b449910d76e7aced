//! What holds of the daemon as a whole.

use crate::container::{InfoView, Kill, ManagerView, Signal};
use crate::error::AppErrorView;
use crate::ipc::protocol::{RequestView, ResponseView};
use crate::ipc::server;
use crate::ipc::server::{ActionView, EventView, PhaseView, Pty, Step};
use crate::script::OpView;
use crate::{container, error, sandbox, script, storage, text};
use vstd::prelude::*;
use vstd::utf8;

verus! {

/// An identifier is twelve lower-case hexadecimal digits.
pub proof fn id_is_hexadecimal(nanos: u32)
    ensures
        server::id_of(nanos).len() == 12,
        forall|i: int| 0 <= i < 12 ==> text::is_hex_char(#[trigger] server::id_of(nanos)[i]),
{
    text::padded_hex_is_hexadecimal(nanos as nat, 12);
}

/// The first eight bytes of an identifier, from which the names of a
/// container's interfaces and host are made, are its first eight characters;
/// and its first twelve bytes, which are shown in the list, are all of it.
pub proof fn id_is_short_enough_to_cut(nanos: u32)
    ensures
        sandbox::has_short_id(server::id_of(nanos)),
        sandbox::short_id(server::id_of(nanos)) == server::id_of(nanos).take(8),
        text::has_byte_prefix(server::id_of(nanos), 12),
        text::byte_prefix(server::id_of(nanos), 12) == server::id_of(nanos),
{
    id_is_hexadecimal(nanos);
    let id = server::id_of(nanos);
    assert(utf8::is_ascii_chars(id)) by {
        assert forall|i: int| 0 <= i < id.len() implies '\0' <= #[trigger] id[i] <= '\u{7f}' by {
            assert(text::is_hex_char(id[i]));
        }
    }
    sandbox::laws::short_id_of_ascii(id);
    text::byte_prefix_of_ascii(id, 12);
    assert(id.take(12) =~= id);
}

/// Containers that are made at different nanoseconds have different
/// identifiers.
pub proof fn ids_differ(a: u32, b: u32)
    requires
        server::id_of(a) == server::id_of(b),
    ensures
        a == b,
{
    assert(text::power_of_16(12) == 0x1_0000_0000_0000) by {
        reveal_with_fuel(text::power_of_16, 13);
    }
    text::padded_hex_is_injective(a as nat, b as nat, 12);
}

/// The host part of the address that a connection has taken for a container
/// that it is starting.
pub open spec fn reserved_by(phase: PhaseView) -> Set<u8> {
    match phase {
        PhaseView::OpeningPty { launch } => octets(launch.ip),
        PhaseView::Launching { launch, .. } => octets(launch.ip),
        PhaseView::SavingRun { info, .. } => match info.ip {
            Some(ip) => octets(ip),
            None => Set::empty(),
        },
        _ => Set::empty(),
    }
}

pub open spec fn octets(ip: Seq<char>) -> Set<u8> {
    match container::host_octet_of(ip) {
        Some(n) => set![n],
        None => Set::empty(),
    }
}

/// Whatever happens to a connection, the addresses stay in order: no two
/// running containers share one, and none has one that this connection or
/// another has taken for a container that it is starting. `others` are those
/// that the other connections have taken.
pub proof fn step_keeps_addresses_in_order(
    manager: ManagerView,
    phase: PhaseView,
    event: EventView,
    step: Step,
    others: Set<u8>,
)
    requires
        container::laws::addresses_in_order(manager, others.union(reserved_by(phase))),
        others.disjoint(reserved_by(phase)),
        server::in_order(phase),
        server::is_step(manager, phase, event, step),
    ensures
        container::laws::addresses_in_order(step.manager, others.union(reserved_by(step.phase))),
        others.disjoint(reserved_by(step.phase)),
        server::in_order(step.phase),
{
    let reserved = others.union(reserved_by(phase));
    let none: Set<u8> = Set::empty();
    assert(others.union(none) =~= others);
    match (phase, event) {
        (PhaseView::Idle, EventView::Requested { request, nanos }) => {
            assert(reserved =~= others);
            id_is_short_enough_to_cut(nanos);
            match request {
                RequestView::StopRequest { container_id, .. } => {
                    stop_keeps_order(manager, others, container_id);
                },
                RequestView::RunRequest { .. } => {
                    if let Some(n) = container::first_free(manager.pool) {
                        container::laws::first_free_is_lowest(manager.pool, n);
                        container::laws::allocation_is_fresh(manager, others, n);
                        container::laws::address_has_its_octet(n);
                        assert(others.union(set![n]) =~= others.insert(n));
                    }
                },
                _ => {},
            }
        },
        (PhaseView::Terminating { id }, EventView::Signalled { .. }) => {
            assert(reserved =~= others);
            stop_keeps_order(manager, others, id);
        },
        (PhaseView::OpeningPty { launch }, EventView::PtyOpened { pty }) => {
            if pty is Err {
                let n = container::host_octet_of(launch.ip)->0;
                container::laws::release_keeps_order(manager, reserved, launch.ip, n);
                assert(reserved.remove(n) =~= others);
            }
        },
        (PhaseView::Launching { launch, .. }, EventView::Launched { pid }) => {
            if pid is Err {
                let n = container::host_octet_of(launch.ip)->0;
                container::laws::release_keeps_order(manager, reserved, launch.ip, n);
                assert(reserved.remove(n) =~= others);
            }
        },
        (PhaseView::SavingRun { info, .. }, EventView::Saved) => {
            let n = container::host_octet_of(info.ip->0)->0;
            container::laws::insertion_keeps_order(manager, reserved, info, n);
            assert(reserved.remove(n) =~= others);
        },
        (PhaseView::Cleaning { id }, EventView::Cleaned { .. }) => {
            assert(reserved =~= others);
            container::laws::removal_keeps_order(manager, others, id);
        },
        _ => {},
    }
}

proof fn stop_keeps_order(manager: ManagerView, reserved: Set<u8>, id: Seq<char>)
    requires
        container::laws::addresses_in_order(manager, reserved),
    ensures
        container::laws::addresses_in_order(
            server::record_stop_step(manager, id).manager,
            reserved,
        ),
{
    if manager.containers.contains_key(id) {
        container::laws::idle_insertion_keeps_order(
            manager,
            reserved,
            container::stopped(manager.containers[id]),
        );
    }
}

/// The end of a child keeps the addresses in order.
pub proof fn exit_keeps_addresses_in_order(
    before: ManagerView,
    pid: u32,
    code: int,
    after: ManagerView,
    reaped: server::Reaped,
    reserved: Set<u8>,
)
    requires
        container::laws::addresses_in_order(before, reserved),
        server::is_exit(before, pid, code, after, reaped),
    ensures
        container::laws::addresses_in_order(after, reserved),
{
    if reaped.save is Some {
        let plan = reaped.save->0;
        let id = choose|id: Seq<char>| #[trigger]
            before.runs(id, pid) && after == before.after_exit(before.containers[id], code)
                && plan@ == storage::save_plan(container::exited(before.containers[id], code));
        container::laws::exit_keeps_order(before, reserved, id, pid, code);
    }
}

/// The daemon with all its connections.
#[verifier::ext_equal]
pub struct Daemon {
    pub manager: ManagerView,
    pub connections: Seq<PhaseView>,
}

/// What the connections, but for the one at `but`, have taken for containers
/// that they are starting.
pub open spec fn reserved_but(connections: Seq<PhaseView>, but: int) -> Set<u8> {
    Set::new(
        |n: u8|
            exists|i: int|
                0 <= i < connections.len() && i != but && reserved_by(
                    #[trigger] connections[i],
                ).contains(n),
    )
}

/// The addresses of the daemon are in order: no two running containers share
/// one, no two connections have taken the same one, and none that a connection
/// has taken is a running container's.
pub open spec fn daemon_in_order(daemon: Daemon) -> bool {
    &&& container::laws::addresses_in_order(daemon.manager, reserved_but(daemon.connections, -1))
    &&& forall|i: int, j: int|
        0 <= i < j < daemon.connections.len() ==> reserved_by(
            #[trigger] daemon.connections[i],
        ).disjoint(reserved_by(#[trigger] daemon.connections[j]))
    &&& forall|i: int|
        0 <= i < daemon.connections.len() ==> server::in_order(#[trigger] daemon.connections[i])
}

/// Whatever happens to any of its connections, the daemon stays in order.
pub proof fn daemon_stays_in_order(daemon: Daemon, i: int, event: EventView, step: Step)
    requires
        daemon_in_order(daemon),
        0 <= i < daemon.connections.len(),
        server::is_step(daemon.manager, daemon.connections[i], event, step),
    ensures
        daemon_in_order(
            (Daemon {
                manager: step.manager,
                connections: daemon.connections.update(i, step.phase),
            }),
        ),
{
    let before = daemon.connections;
    let after = before.update(i, step.phase);
    let others = reserved_but(before, i);
    assert(reserved_but(before, -1) =~= others.union(reserved_by(before[i]))) by {
        assert forall|n: u8| #[trigger] reserved_but(before, -1).contains(n) implies others.union(
            reserved_by(before[i]),
        ).contains(n) by {
            let k = choose|k: int|
                0 <= k < before.len() && k != -1 && reserved_by(#[trigger] before[k]).contains(n);
            assert(k == i || others.contains(n));
        }
        assert forall|n: u8| #[trigger]
            reserved_by(before[i]).contains(n) implies reserved_but(before, -1).contains(n) by {}
    }
    assert(others.disjoint(reserved_by(before[i]))) by {
        assert forall|n: u8| others.contains(n) implies !reserved_by(before[i]).contains(n) by {
            let k = choose|k: int|
                0 <= k < before.len() && k != i && reserved_by(#[trigger] before[k]).contains(n);
            if k < i {
                assert(reserved_by(before[k]).disjoint(reserved_by(before[i])));
            } else {
                assert(reserved_by(before[i]).disjoint(reserved_by(before[k])));
            }
        }
    }
    step_keeps_addresses_in_order(daemon.manager, before[i], event, step, others);
    assert(reserved_but(after, -1) =~= others.union(reserved_by(step.phase))) by {
        assert forall|n: u8| #[trigger] reserved_but(after, -1).contains(n) implies others.union(
            reserved_by(step.phase),
        ).contains(n) by {
            let k = choose|k: int|
                0 <= k < after.len() && k != -1 && reserved_by(#[trigger] after[k]).contains(n);
            if k != i {
                assert(after[k] == before[k]);
            }
        }
        assert forall|n: u8| #[trigger] others.contains(n) implies reserved_but(
            after,
            -1,
        ).contains(n) by {
            let k = choose|k: int|
                0 <= k < before.len() && k != i && reserved_by(#[trigger] before[k]).contains(n);
            assert(after[k] == before[k]);
        }
        assert forall|n: u8| #[trigger]
            reserved_by(step.phase).contains(n) implies reserved_but(after, -1).contains(n) by {
            assert(after[i] == step.phase);
        }
    }
    assert forall|a: int, b: int| 0 <= a < b < after.len() implies reserved_by(
        #[trigger] after[a],
    ).disjoint(reserved_by(#[trigger] after[b])) by {
        if a != i && b != i {
            assert(after[a] == before[a] && after[b] == before[b]);
        } else {
            let k = if a == i { b } else { a };
            assert(after[k] == before[k]);
            assert forall|n: u8| #[trigger] reserved_by(after[k]).contains(n) implies !reserved_by(
                step.phase,
            ).contains(n) by {
                assert(others.contains(n));
            }
        }
    }
    assert forall|k: int| 0 <= k < after.len() implies server::in_order(#[trigger] after[k]) by {
        if k != i {
            assert(after[k] == before[k]);
        }
    }
}

/// A new connection leaves the daemon in order.
pub proof fn connecting_keeps_order(daemon: Daemon)
    requires
        daemon_in_order(daemon),
    ensures
        daemon_in_order(
            (Daemon { connections: daemon.connections.push(PhaseView::Idle), ..daemon }),
        ),
{
    let before = daemon.connections;
    let after = before.push(PhaseView::Idle);
    assert(reserved_but(after, -1) =~= reserved_but(before, -1)) by {
        assert forall|n: u8| #[trigger] reserved_but(after, -1).contains(n) implies reserved_but(
            before,
            -1,
        ).contains(n) by {
            let k = choose|k: int|
                0 <= k < after.len() && k != -1 && reserved_by(#[trigger] after[k]).contains(n);
            assert(after[k] == before[k]);
        }
        assert forall|n: u8| #[trigger] reserved_but(before, -1).contains(n) implies reserved_but(
            after,
            -1,
        ).contains(n) by {
            let k = choose|k: int|
                0 <= k < before.len() && k != -1 && reserved_by(#[trigger] before[k]).contains(n);
            assert(after[k] == before[k]);
        }
    }
    assert forall|a: int, b: int| 0 <= a < b < after.len() implies reserved_by(
        #[trigger] after[a],
    ).disjoint(reserved_by(#[trigger] after[b])) by {
        assert(after[a] == before[a]);
        if b < before.len() {
            assert(after[b] == before[b]);
        }
    }
    assert forall|k: int| 0 <= k < after.len() implies server::in_order(#[trigger] after[k]) by {
        if k < before.len() {
            assert(after[k] == before[k]);
        }
    }
}

/// The end of a child leaves the daemon in order.
pub proof fn exit_keeps_daemon_in_order(
    daemon: Daemon,
    pid: u32,
    code: int,
    after: ManagerView,
    reaped: server::Reaped,
)
    requires
        daemon_in_order(daemon),
        server::is_exit(daemon.manager, pid, code, after, reaped),
    ensures
        daemon_in_order((Daemon { manager: after, ..daemon })),
{
    exit_keeps_addresses_in_order(
        daemon.manager,
        pid,
        code,
        after,
        reaped,
        reserved_but(daemon.connections, -1),
    );
}

/// A daemon that starts with containers of which no two share an identifier or
/// a running address is in order.
pub proof fn daemon_starts_in_order(entries: Seq<InfoView>)
    requires
        container::distinct_ids(entries),
        container::laws::distinct_addresses(entries),
    ensures
        daemon_in_order((Daemon { manager: container::restored(entries), connections: seq![] })),
{
    container::laws::restart_in_order(entries);
    assert(reserved_but(seq![], -1) =~= Set::empty());
}

/// A daemon that starts with the containers of another one that was in order
/// is in order.
pub proof fn restart_keeps_daemon_in_order(daemon: Daemon, entries: Seq<InfoView>)
    requires
        daemon_in_order(daemon),
        container::lists(entries, daemon.manager.containers),
    ensures
        daemon_in_order((Daemon { manager: container::restored(entries), connections: seq![] })),
{
    container::laws::restart_keeps_order(
        daemon.manager,
        reserved_but(daemon.connections, -1),
        entries,
    );
    assert(reserved_but(seq![], -1) =~= Set::empty());
}

/// An address that is taken stays taken, whatever happens to a connection, but
/// for the one that this connection had taken itself. So no other connection
/// gets it meanwhile.
pub proof fn taken_address_stays_taken(
    manager: ManagerView,
    phase: PhaseView,
    event: EventView,
    step: Step,
    n: u8,
)
    requires
        server::is_step(manager, phase, event, step),
        manager.pool.contains(n),
        !reserved_by(phase).contains(n),
    ensures
        step.manager.pool.contains(n),
        container::first_free(step.manager.pool) != Some(n),
{
    container::laws::taken_address_is_not_given_out(step.manager.pool, n);
}

/// Identifiers name one entry of a directory.
pub proof fn id_is_plain(nanos: u32)
    ensures
        sandbox::laws::is_plain(server::id_of(nanos)),
{
    id_is_hexadecimal(nanos);
    let id = server::id_of(nanos);
    assert forall|i: int| 0 <= i < id.len() implies id[i] != '/' by {
        assert(text::is_hex_char(id[i]));
    }
}

/// Whether an action gives a connection its answer.
pub open spec fn is_final(action: ActionView) -> bool {
    action is Respond || action is Forward
}

/// A connection is given one answer: an action that gives it is the last of
/// its list, and comes just when the connection is done.
pub proof fn connection_is_answered_once(
    manager: ManagerView,
    phase: PhaseView,
    event: EventView,
    step: Step,
)
    requires
        server::is_step(manager, phase, event, step),
        !(phase is Done),
    ensures
        forall|i: int|
            0 <= i < step.actions.len() && is_final(#[trigger] step.actions[i]) ==> i
                == step.actions.len() - 1,
        step.phase is Done <==> step.actions.len() > 0 && is_final(step.actions.last()),
{
}

/// A connection that has its answer stays as it is.
pub proof fn done_is_final(manager: ManagerView, event: EventView, step: Step)
    requires
        server::is_step(manager, PhaseView::Done, event, step),
    ensures
        step == (Step { manager, phase: PhaseView::Done, actions: seq![] }),
{
}

/// A request that is refused changes no container.
pub proof fn refusal_changes_no_container(
    manager: ManagerView,
    phase: PhaseView,
    event: EventView,
    step: Step,
)
    requires
        server::is_step(manager, phase, event, step),
        step.actions.len() > 0,
        match step.actions.last() {
            ActionView::Respond(response) => response is ErrorResponse,
            _ => false,
        },
    ensures
        step.manager.containers == manager.containers,
{
}

/// A start is refused for want of an address just when all are taken; nothing
/// is launched, and the daemon's state is as it was.
pub proof fn start_needs_a_free_address(
    manager: ManagerView,
    command: Seq<Seq<char>>,
    memory_limit: Seq<char>,
    interactive: bool,
    nanos: u32,
)
    ensures
        ({
            let request = RequestView::RunRequest { command, memory_limit, interactive };
            let step = server::step_of(
                manager,
                PhaseView::Idle,
                EventView::Requested { request, nanos },
            );
            (step == server::refused(manager, AppErrorView::IpExhausted)) <==> forall|n: u8|
                #[trigger] container::assignable(n) ==> manager.pool.contains(n)
        }),
{
    container::laws::none_free_when_all_taken(manager.pool);
}

/// A start that fails after it took an address gives it back, whichever step
/// it fails in: the launch, the terminal, or the launch at a terminal. The
/// daemon's state is as it was before the request.
pub proof fn failed_start_leaves_no_trace(
    manager: ManagerView,
    command: Seq<Seq<char>>,
    memory_limit: Seq<char>,
    nanos: u32,
    pty: Pty,
    cause: AppErrorView,
)
    requires
        container::first_free(manager.pool) is Some,
    ensures
        ({
            let request = RequestView::RunRequest { command, memory_limit, interactive: false };
            let begun = server::step_of(
                manager,
                PhaseView::Idle,
                EventView::Requested { request, nanos },
            );
            let ended = server::step_of(
                begun.manager,
                begun.phase,
                EventView::Launched { pid: Err(cause) },
            );
            ended == server::refused(manager, cause)
        }),
        ({
            let request = RequestView::RunRequest { command, memory_limit, interactive: true };
            let begun = server::step_of(
                manager,
                PhaseView::Idle,
                EventView::Requested { request, nanos },
            );
            let ended = server::step_of(
                begun.manager,
                begun.phase,
                EventView::PtyOpened { pty: Err(cause) },
            );
            ended == server::refused(manager, cause)
        }),
        ({
            let request = RequestView::RunRequest { command, memory_limit, interactive: true };
            let begun = server::step_of(
                manager,
                PhaseView::Idle,
                EventView::Requested { request, nanos },
            );
            let opened = server::step_of(
                begun.manager,
                begun.phase,
                EventView::PtyOpened { pty: Ok(pty) },
            );
            let ended = server::step_of(
                opened.manager,
                opened.phase,
                EventView::Launched { pid: Err(cause) },
            );
            &&& ended.manager == manager
            &&& ended.phase is Done
            &&& ended.actions == seq![
                ActionView::CloseFd { fd: pty.master },
                ActionView::CloseFd { fd: pty.slave },
                ActionView::Respond(
                    ResponseView::ErrorResponse { message: error::error_text(cause) },
                ),
            ]
        }),
{
    let n = container::first_free(manager.pool)->0;
    container::laws::first_free_is_lowest(manager.pool, n);
    container::laws::allocation_is_undone(manager, n);
    let answer = seq![
        ActionView::Respond(ResponseView::ErrorResponse { message: error::error_text(cause) }),
    ];
    let nothing: Seq<ActionView> = seq![];
    assert(nothing + answer =~= answer);
    let closes = seq![
        ActionView::CloseFd { fd: pty.master },
        ActionView::CloseFd { fd: pty.slave },
    ];
    assert(closes + answer =~= seq![
        ActionView::CloseFd { fd: pty.master },
        ActionView::CloseFd { fd: pty.slave },
        answer[0],
    ]);
}

/// A start that succeeds ends with a container that the daemon knows as
/// running, with the process and the address that it has, saved before it is
/// recorded; and the client is told its identifier.
pub proof fn started_container_is_recorded(
    manager: ManagerView,
    command: Seq<Seq<char>>,
    memory_limit: Seq<char>,
    nanos: u32,
    pid: u32,
)
    requires
        container::first_free(manager.pool) is Some,
    ensures
        ({
            let request = RequestView::RunRequest { command, memory_limit, interactive: false };
            let id = server::id_of(nanos);
            let n = container::first_free(manager.pool)->0;
            let begun = server::step_of(
                manager,
                PhaseView::Idle,
                EventView::Requested { request, nanos },
            );
            let launched = server::step_of(
                begun.manager,
                begun.phase,
                EventView::Launched { pid: Ok(pid) },
            );
            let ended = server::step_of(launched.manager, launched.phase, EventView::Saved);
            let info = ended.manager.containers[id];
            &&& launched.manager.containers == manager.containers
            &&& launched.actions == seq![ActionView::Save(storage::save_plan(info))]
            &&& ended.manager.runs(id, pid)
            &&& info.state == "Running"@
            &&& info.command == command
            &&& info.memory_limit == memory_limit
            &&& info.ip == Some(container::address(n))
            &&& ended.manager.pool.contains(n)
            &&& ended.phase is Done
            &&& ended.actions == seq![
                ActionView::Respond(ResponseView::RunResponse { container_id: id }),
            ]
        }),
{
}

/// A container that runs is first asked to end, then given time, and killed
/// only if it has not ended by then.
pub proof fn stop_is_graceful(
    before: ManagerView,
    later: ManagerView,
    id: Seq<char>,
    timeout: u64,
    nanos: u32,
    pid: u32,
)
    requires
        before.runs(id, pid),
    ensures
        ({
            let request = RequestView::StopRequest { container_id: id, timeout };
            let asked = server::step_of(
                before,
                PhaseView::Idle,
                EventView::Requested { request, nanos },
            );
            let waiting = server::step_of(
                before,
                asked.phase,
                EventView::Signalled { sent: true },
            );
            let ended = server::step_of(later, waiting.phase, EventView::Woke);
            &&& asked.manager == before
            &&& asked.actions == seq![
                ActionView::Kill(Kill { pid: pid as i32, signal: Signal::Terminate }),
            ]
            &&& waiting.manager == before
            &&& waiting.actions == seq![ActionView::Sleep { seconds: 5 }]
            &&& ended.manager == later
            &&& ended.actions.last() == ActionView::Respond(
                ResponseView::StopResponse { container_id: id, state: "Stopping"@ },
            )
            &&& (forall|p: u32| !later.runs(id, p)) ==> ended.actions.len() == 1
            &&& forall|p: u32| #[trigger]
                later.runs(id, p) ==> ended.actions.len() == 2 && ended.actions[0]
                    == ActionView::Kill(Kill { pid: p as i32, signal: Signal::Kill })
        }),
{
    if later.containers.contains_key(id) {
        if let Some(p) = later.containers[id].pid {
            assert(later.runs(id, p));
        }
    }
}

/// A container that runs cannot be removed: the request is refused, and
/// nothing is cleaned up. Nor can one that is not known.
pub proof fn removal_is_refused_while_running(
    manager: ManagerView,
    id: Seq<char>,
    nanos: u32,
)
    requires
        manager.containers.contains_key(id) ==> manager.containers[id].pid is Some,
    ensures
        ({
            let request = RequestView::RemoveRequest { container_id: id };
            let step = server::step_of(
                manager,
                PhaseView::Idle,
                EventView::Requested { request, nanos },
            );
            step == server::refused(
                manager,
                if manager.containers.contains_key(id) {
                    AppErrorView::StillRunning(id)
                } else {
                    AppErrorView::NotFound(id)
                },
            )
        }),
{
}

/// A container that does not run is cleaned up after and then forgotten; it is
/// kept if the cleaning fails.
pub proof fn removal_cleans_up_first(
    before: ManagerView,
    later: ManagerView,
    id: Seq<char>,
    nanos: u32,
    result: Result<(), AppErrorView>,
)
    requires
        before.containers.contains_key(id),
        before.containers[id].pid is None,
    ensures
        ({
            let request = RequestView::RemoveRequest { container_id: id };
            let begun = server::step_of(
                before,
                PhaseView::Idle,
                EventView::Requested { request, nanos },
            );
            let ended = server::step_of(later, begun.phase, EventView::Cleaned { result });
            &&& begun.manager == before
            &&& begun.actions == seq![ActionView::Clean(server::removal_script(id))]
            &&& result is Ok ==> !ended.manager.containers.contains_key(id) && ended.actions
                == seq![
                ActionView::Respond(
                    ResponseView::StopResponse { container_id: id, state: "Removed"@ },
                ),
            ]
            &&& result is Err ==> ended.manager == later
        }),
{
}

/// What is cleaned up after a container is what was made for it: the control
/// group that its start makes, and the file that it is saved in.
pub proof fn cleaning_covers_what_was_made(info: InfoView)
    ensures
        exists|i: int, j: int|
            0 <= i < server::removal_script(info.id).len() && 0 <= j
                < sandbox::cgroup::cgroup_script(info.id).len() && (
            match #[trigger] server::removal_script(info.id)[i] {
                OpView::RemoveDir { path } => #[trigger] sandbox::cgroup::cgroup_script(info.id)[j]
                    == (OpView::CreateDirAll { path }),
                _ => false,
            }),
        exists|i: int|
            0 <= i < server::removal_script(info.id).len() && #[trigger] server::removal_script(
                info.id,
            )[i] == (OpView::RemoveFile { path: storage::save_plan(info).path }),
{
    let removal = server::removal_script(info.id);
    let path = sandbox::cgroup::cgroup_path(info.id);
    assert(removal[2] == (OpView::RemoveDir { path }));
    assert(sandbox::cgroup::cgroup_script(info.id)[2] == (OpView::CreateDirAll { path }));
    assert(removal[3] == (OpView::RemoveFile { path: storage::save_plan(info).path }));
}

/// What cleans up after a container can be carried out as a script.
pub proof fn cleaning_is_well_formed(id: Seq<char>)
    ensures
        script::well_formed(server::removal_script(id)),
{
}

} // verus!
