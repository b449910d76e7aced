//! What holds of a connection over all its turns: that it comes to its answer,
//! and that what it changes is saved.

use crate::container::{InfoView, ManagerView};
use crate::error::AppErrorView;
use crate::ipc::protocol::RequestView;
use crate::ipc::server;
use crate::ipc::server::laws;
use crate::ipc::server::{ActionView, EventView, PhaseView, Reaped, Step};
use crate::script::OpView;
use crate::storage::SaveView;
use crate::{container, storage};
use vstd::prelude::*;

verus! {

/// One turn of a connection: the state of the daemon that it found, what
/// happened, and what came of it. Between two turns others may change the
/// state.
#[verifier::ext_equal]
pub struct Turn {
    pub manager: ManagerView,
    pub event: EventView,
    pub step: Step,
}

/// How far the connection had come before the turn at `i`.
pub open spec fn phase_before(turns: Seq<Turn>, i: int) -> PhaseView {
    if i == 0 {
        PhaseView::Idle
    } else {
        turns[i - 1].step.phase
    }
}

/// Whether these are turns of one connection, from its beginning on.
pub open spec fn is_history(turns: Seq<Turn>) -> bool {
    forall|i: int|
        0 <= i < turns.len() ==> is_turn(phase_before(turns, i), #[trigger] turns[i])
}

/// Whether this is a turn of a connection that has come as far as `phase`.
#[verifier::opaque]
pub open spec fn is_turn(phase: PhaseView, turn: Turn) -> bool {
    turn.manager.keyed() && server::is_step(turn.manager, phase, turn.event, turn.step)
}

/// The event that a connection waits for.
pub open spec fn waits_for(phase: PhaseView, event: EventView) -> bool {
    match phase {
        PhaseView::Idle => event is Requested,
        PhaseView::Terminating { .. } => event is Signalled,
        PhaseView::Grace { .. } => event is Woke,
        PhaseView::SavingStop { .. } => event is Saved,
        PhaseView::OpeningPty { .. } => event is PtyOpened,
        PhaseView::Launching { .. } => event is Launched,
        PhaseView::SavingRun { .. } => event is Saved,
        PhaseView::Cleaning { .. } => event is Cleaned,
        PhaseView::Done => false,
    }
}

/// The event that an action brings about.
pub open spec fn brings_about(action: ActionView, event: EventView) -> bool {
    match action {
        ActionView::Kill(_) => event is Signalled,
        ActionView::Sleep { .. } => event is Woke,
        ActionView::Save(_) => event is Saved,
        ActionView::OpenPty => event is PtyOpened,
        ActionView::Launch(_) => event is Launched,
        ActionView::Clean(_) => event is Cleaned,
        _ => false,
    }
}

/// How many events a connection has at most ahead of it.
pub open spec fn events_ahead(phase: PhaseView) -> nat {
    match phase {
        PhaseView::Idle => 4,
        PhaseView::OpeningPty { .. } => 3,
        PhaseView::Terminating { .. } => 2,
        PhaseView::Launching { .. } => 2,
        PhaseView::Done => 0,
        _ => 1,
    }
}

/// A connection never stalls: after an event that it waits for it is done, and
/// has its answer, or the last of its actions brings about just the events
/// that it waits for next. Either way fewer events lie ahead of it.
pub proof fn connection_goes_on(
    manager: ManagerView,
    phase: PhaseView,
    event: EventView,
    step: Step,
)
    requires
        server::is_step(manager, phase, event, step),
        waits_for(phase, event),
    ensures
        step.actions.len() > 0,
        step.phase is Done ==> laws::is_final(step.actions.last()),
        !(step.phase is Done) ==> forall|e: EventView| #[trigger]
            brings_about(step.actions.last(), e) <==> waits_for(step.phase, e),
        events_ahead(step.phase) < events_ahead(phase),
{
}

/// Whether each of these turns was an event that the connection waited for.
pub open spec fn all_waited_for(turns: Seq<Turn>) -> bool {
    forall|i: int|
        0 <= i < turns.len() ==> waits_for(phase_before(turns, i), (#[trigger] turns[i]).event)
}

/// Every request comes to its answer: a connection has its answer after at most
/// four events that it waited for.
pub proof fn request_comes_to_its_answer(turns: Seq<Turn>)
    requires
        is_history(turns),
        all_waited_for(turns),
    ensures
        turns.len() <= 4,
        turns.len() == 4 ==> turns.last().step.phase is Done && laws::is_final(
            turns.last().step.actions.last(),
        ),
{
    reveal(is_turn);
    events_are_used_up(turns, turns.len() as int);
    if turns.len() > 0 {
        let last = turns.len() - 1;
        assert(waits_for(phase_before(turns, last), turns[last].event));
        connection_goes_on(
            turns[last].manager,
            phase_before(turns, last),
            turns[last].event,
            turns[last].step,
        );
    }
}

proof fn events_are_used_up(turns: Seq<Turn>, n: int)
    requires
        is_history(turns),
        all_waited_for(turns),
        0 <= n <= turns.len(),
    ensures
        events_ahead(phase_before(turns, n)) + n <= 4,
    decreases n,
{
    reveal(is_turn);
    if n > 0 {
        let i = n - 1;
        events_are_used_up(turns, i);
        assert(waits_for(phase_before(turns, i), turns[i].event));
        connection_goes_on(
            turns[i].manager,
            phase_before(turns, i),
            turns[i].event,
            turns[i].step,
        );
    }
}

/// Whether what is known of the container `id` differs between two states.
pub open spec fn changes(before: ManagerView, after: ManagerView, id: Seq<char>) -> bool {
    ||| before.containers.contains_key(id) != after.containers.contains_key(id)
    ||| before.containers.contains_key(id) && before.containers[id] != after.containers[id]
}

/// Whether the event is that a container has been cleaned up after.
pub open spec fn is_cleaned(event: EventView) -> bool {
    match event {
        EventView::Cleaned { result } => result is Ok,
        _ => false,
    }
}

/// Whether a turn asks for one thing, `action`.
pub open spec fn asks_for(turn: Turn, action: ActionView) -> bool {
    turn.step.actions == seq![action]
}

proof fn lemma_waiting_is_asked_for(phase: PhaseView, turn: Turn)
    requires
        is_turn(phase, turn),
    ensures
        match turn.step.phase {
            PhaseView::SavingRun { info, .. } => phase == turn.step.phase || asks_for(
                turn,
                ActionView::Save(storage::save_plan(info)),
            ),
            PhaseView::Cleaning { id } => phase == turn.step.phase || asks_for(
                turn,
                ActionView::Clean(server::removal_script(id)),
            ),
            _ => true,
        },
{
    reveal(is_turn);
}

proof fn lemma_waiting_was_asked_for(turns: Seq<Turn>, n: int)
    requires
        is_history(turns),
        0 <= n <= turns.len(),
    ensures
        match phase_before(turns, n) {
            PhaseView::SavingRun { info, .. } => exists|j: int|
                0 <= j < n && asks_for(
                    #[trigger] turns[j],
                    ActionView::Save(storage::save_plan(info)),
                ),
            PhaseView::Cleaning { id } => exists|j: int|
                0 <= j < n && asks_for(
                    #[trigger] turns[j],
                    ActionView::Clean(server::removal_script(id)),
                ),
            _ => true,
        },
    decreases n,
{
    if n > 0 {
        let turn = turns[n - 1];
        let before = phase_before(turns, n - 1);
        lemma_waiting_was_asked_for(turns, n - 1);
        lemma_waiting_is_asked_for(before, turn);
        match turn.step.phase {
            PhaseView::SavingRun { info, pty } => {
                if before == turn.step.phase {
                    let j = choose|j: int|
                        0 <= j < n - 1 && asks_for(
                            #[trigger] turns[j],
                            ActionView::Save(storage::save_plan(info)),
                        );
                    assert(asks_for(turns[j], ActionView::Save(storage::save_plan(info))));
                } else {
                    assert(asks_for(turn, ActionView::Save(storage::save_plan(info))));
                }
            },
            PhaseView::Cleaning { id } => {
                if before == turn.step.phase {
                    let j = choose|j: int|
                        0 <= j < n - 1 && asks_for(
                            #[trigger] turns[j],
                            ActionView::Clean(server::removal_script(id)),
                        );
                    assert(asks_for(turns[j], ActionView::Clean(server::removal_script(id))));
                } else {
                    assert(asks_for(turn, ActionView::Clean(server::removal_script(id))));
                }
            },
            _ => {},
        }
    }
}

/// Where a step changes what is known of a container, it asks for just what is
/// known now to be saved, or the connection was waiting for that to be saved. A
/// container goes only when it has been cleaned up after.
pub proof fn change_comes_with_its_save(
    manager: ManagerView,
    phase: PhaseView,
    event: EventView,
    step: Step,
    id: Seq<char>,
)
    requires
        manager.keyed(),
        server::is_step(manager, phase, event, step),
        changes(manager, step.manager, id),
    ensures
        if step.manager.containers.contains_key(id) {
            let info = step.manager.containers[id];
            ||| step.actions == seq![ActionView::Save(storage::save_plan(info))]
            ||| phase matches PhaseView::SavingRun { info: waiting, .. } && waiting == info
        } else {
            phase == (PhaseView::Cleaning { id }) && is_cleaned(event)
        },
{
}

/// Every change is saved: where a turn of a connection changes what is known of
/// a container, this turn, or for a new container one before it, asks for just
/// what is known now to be saved. A container goes only after a turn before
/// asked for what it left behind to be cleaned up, which removes the file that
/// it was saved in, and this was done.
pub proof fn every_change_is_saved(turns: Seq<Turn>, id: Seq<char>)
    requires
        is_history(turns),
        turns.len() > 0,
        changes(turns.last().manager, turns.last().step.manager, id),
    ensures
        ({
            let last = turns.last();
            let after = last.step.manager;
            if after.containers.contains_key(id) {
                exists|j: int|
                    0 <= j < turns.len() && asks_for(
                        #[trigger] turns[j],
                        ActionView::Save(storage::save_plan(after.containers[id])),
                    )
            } else {
                &&& is_cleaned(last.event)
                &&& exists|j: int|
                    0 <= j < turns.len() - 1 && asks_for(
                        #[trigger] turns[j],
                        ActionView::Clean(server::removal_script(id)),
                    )
                &&& server::removal_script(id).contains(
                    OpView::RemoveFile { path: storage::stored_path(id) },
                )
            }
        }),
{
    let n = turns.len() - 1;
    let last = turns[n];
    let phase = phase_before(turns, n);
    let after = last.step.manager;
    lemma_waiting_was_asked_for(turns, n);
    assert(is_turn(phase, last));
    assert(last.manager.keyed() && server::is_step(
        last.manager,
        phase,
        last.event,
        last.step,
    )) by {
        reveal(is_turn);
    }
    change_comes_with_its_save(last.manager, phase, last.event, last.step, id);
    assert(server::removal_script(id)[3] == (OpView::RemoveFile {
        path: storage::stored_path(id),
    }));
    if after.containers.contains_key(id) {
        let save = ActionView::Save(storage::save_plan(after.containers[id]));
        if asks_for(last, save) {
            assert(asks_for(turns[n], save));
        } else {
            let j = choose|j: int| 0 <= j < n && asks_for(#[trigger] turns[j], save);
            assert(asks_for(turns[j], save));
        }
    }
}

/// Every exit is saved: where the end of a child changes what is known of a
/// container, just what is known now is to be saved, and the container stays.
pub proof fn every_exit_is_saved(
    before: ManagerView,
    pid: u32,
    code: int,
    after: ManagerView,
    reaped: Reaped,
    id: Seq<char>,
)
    requires
        before.keyed(),
        server::is_exit(before, pid, code, after, reaped),
        changes(before, after, id),
    ensures
        after.containers.contains_key(id),
        reaped.save is Some,
        reaped.save->0@ == storage::save_plan(after.containers[id]),
{
}

/// What the files hold, by their paths, after a plan has been carried out.
pub open spec fn saved(disk: Map<Seq<char>, InfoView>, plan: SaveView) -> Map<
    Seq<char>,
    InfoView,
> {
    disk.insert(plan.path, plan.metadata)
}

/// What the files hold after an event and what came of it: what was cleaned up
/// after is gone, and what is asked to be saved is written.
pub open spec fn disk_after(
    disk: Map<Seq<char>, InfoView>,
    phase: PhaseView,
    event: EventView,
    step: Step,
) -> Map<Seq<char>, InfoView> {
    let cleaned = match (phase, event) {
        (PhaseView::Cleaning { id }, EventView::Cleaned { result: Ok(_) }) => disk.remove(
            storage::stored_path(id),
        ),
        _ => disk,
    };
    if step.actions.len() > 0 {
        match step.actions[0] {
            ActionView::Save(plan) => saved(cleaned, plan),
            _ => cleaned,
        }
    } else {
        cleaned
    }
}

/// Whether the identifier is one that does not lead out of the directory.
pub open spec fn stays_inside(id: Seq<char>) -> bool {
    id.len() > 0 ==> id[0] != '/'
}

/// Whether the file of each container holds what is known of it.
pub open spec fn disk_matches(disk: Map<Seq<char>, InfoView>, manager: ManagerView) -> bool {
    forall|id: Seq<char>| #[trigger]
        manager.containers.contains_key(id) ==> stays_inside(id) && holds_info(
            disk,
            manager.containers[id],
        )
}

/// Whether the file of a container holds this.
pub open spec fn holds_info(disk: Map<Seq<char>, InfoView>, info: InfoView) -> bool {
    disk.contains_key(storage::stored_path(info.id)) && disk[storage::stored_path(info.id)] == info
}

/// What holds of the files with regard to a connection: a container that it is
/// starting is new and does not lead out of the directory, and one that it has
/// started is on disk.
pub open spec fn disk_matches_phase(
    disk: Map<Seq<char>, InfoView>,
    manager: ManagerView,
    phase: PhaseView,
) -> bool {
    match phase {
        PhaseView::Launching { launch, .. } => stays_inside(launch.id)
            && !manager.containers.contains_key(launch.id),
        PhaseView::SavingRun { info, .. } => stays_inside(info.id) && holds_info(disk, info),
        PhaseView::Cleaning { id } => stays_inside(id),
        _ => true,
    }
}

/// The files follow the state: if they hold what is known of every container,
/// they do so after whatever happens to a connection.
pub proof fn disk_follows_the_state(
    disk: Map<Seq<char>, InfoView>,
    manager: ManagerView,
    phase: PhaseView,
    event: EventView,
    step: Step,
)
    requires
        server::is_step(manager, phase, event, step),
        manager.keyed(),
        disk_matches(disk, manager),
        disk_matches_phase(disk, manager, phase),
    ensures
        disk_matches(disk_after(disk, phase, event, step), step.manager),
        step.phase is SavingRun ==> disk_matches_phase(
            disk_after(disk, phase, event, step),
            step.manager,
            step.phase,
        ),
{
    let after = disk_after(disk, phase, event, step);
    let touched = match (phase, event) {
        (PhaseView::Cleaning { id }, _) => id,
        (PhaseView::SavingRun { info, .. }, _) => info.id,
        (PhaseView::Launching { launch, .. }, _) => launch.id,
        (PhaseView::Terminating { id }, _) => id,
        (PhaseView::Idle, EventView::Requested { request, .. }) => match request {
            RequestView::StopRequest { container_id, .. } => container_id,
            _ => seq![],
        },
        _ => seq![],
    };
    assert forall|id: Seq<char>| #[trigger] step.manager.containers.contains_key(id) implies
        stays_inside(id) && holds_info(after, step.manager.containers[id]) by {
        if id != touched {
            assert(manager.containers.contains_key(id));
            if stays_inside(touched) {
                storage::files_differ(id, touched);
            }
        }
    }
}

/// The files follow the state: if they hold what is known of every container,
/// they do so after the end of a child has been saved.
pub proof fn disk_follows_an_exit(
    disk: Map<Seq<char>, InfoView>,
    before: ManagerView,
    pid: u32,
    code: int,
    after: ManagerView,
    reaped: Reaped,
)
    requires
        before.keyed(),
        server::is_exit(before, pid, code, after, reaped),
        disk_matches(disk, before),
    ensures
        disk_matches(
            match reaped.save {
                Some(plan) => saved(disk, plan@),
                None => disk,
            },
            after,
        ),
{
    if let Some(plan) = reaped.save {
        let id = choose|id: Seq<char>| #[trigger]
            before.runs(id, pid) && after == before.after_exit(before.containers[id], code)
                && plan@ == storage::save_plan(container::exited(before.containers[id], code));
        let disk2 = saved(disk, plan@);
        assert forall|other: Seq<char>| #[trigger]
            after.containers.contains_key(other) implies stays_inside(other) && holds_info(
            disk2,
            after.containers[other],
        ) by {
            assert(before.containers.contains_key(other));
            if other != id {
                storage::files_differ(other, id);
            }
        }
    }
}

/// A daemon that starts with files that follow the state of another one has its
/// containers: the files hold what is known of each, and this is what is loaded
/// of them, in whatever order they come.
pub proof fn restart_finds_the_state(
    disk: Map<Seq<char>, InfoView>,
    manager: ManagerView,
    entries: Seq<InfoView>,
)
    requires
        manager.keyed(),
        disk_matches(disk, manager),
        container::lists(entries, manager.containers),
        forall|id: Seq<char>| #[trigger] manager.containers.contains_key(id) ==> id.len() > 0,
    ensures
        forall|i: int| 0 <= i < entries.len() ==> holds_info(disk, #[trigger] entries[i]),
        storage::loaded(storage::stored_all(entries)) == Ok::<
            Seq<InfoView>,
            AppErrorView,
        >(entries),
        container::restored(entries).containers == manager.containers,
{
    container::by_id_finds(entries);
    assert forall|i: int| 0 <= i < entries.len() implies holds_info(disk, #[trigger] entries[i]) by {
        assert(manager.containers.contains_key(entries[i].id));
    }
    storage::restart_restores(entries, manager.containers);
}

} // verus!
