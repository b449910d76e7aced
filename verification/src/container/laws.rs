//! What holds of the daemon's state whatever happens to its containers.

use crate::container::{InfoView, ManagerView};
use crate::error::AppErrorView;
use crate::{container, text};
use vstd::prelude::*;

verus! {

/// The addresses are in order: every running container's address is taken, no
/// two running containers share one, and none of them is among `reserved`,
/// the ones handed out to containers that are still being set up, which are
/// taken too.
pub open spec fn addresses_in_order(manager: ManagerView, reserved: Set<u8>) -> bool {
    &&& manager.keyed()
    &&& reserved.subset_of(manager.pool)
    &&& forall|id: Seq<char>, n: u8| #[trigger]
        holds(manager, id, n) ==> manager.pool.contains(n) && !reserved.contains(n)
    &&& forall|a: Seq<char>, b: Seq<char>, n: u8| #[trigger]
        holds(manager, a, n) && #[trigger] holds(manager, b, n) ==> a == b
}

/// Whether the container `id` runs with an address whose host part is `n`.
pub open spec fn holds(manager: ManagerView, id: Seq<char>, n: u8) -> bool {
    manager.containers.contains_key(id) && container::running_octet(manager.containers[id])
        == Some(n)
}

/// The address that is taken next is the lowest free one.
pub proof fn first_free_is_lowest(pool: Set<u8>, n: u8)
    ensures
        container::is_lowest_free(pool, n) <==> container::first_free(pool) == Some(n),
{
    if container::first_free(pool) is Some {
        let k = choose|k: u8| container::is_lowest_free(pool, k);
        if container::is_lowest_free(pool, n) {
            assert(container::assignable(k) && container::assignable(n));
        }
    }
}

/// An address that is taken is not given out again until it is free: whoever
/// asks next gets another one.
pub proof fn taken_address_is_not_given_out(pool: Set<u8>, n: u8)
    requires
        pool.contains(n),
    ensures
        container::first_free(pool) != Some(n),
{
    first_free_is_lowest(pool, n);
}

/// No address can be taken just when all are.
pub proof fn none_free_when_all_taken(pool: Set<u8>)
    ensures
        container::first_free(pool) is None <==> forall|n: u8| #[trigger]
            container::assignable(n) ==> pool.contains(n),
{
    if exists|n: u8| #[trigger] container::assignable(n) && !pool.contains(n) {
        let n = choose|n: u8| #[trigger] container::assignable(n) && !pool.contains(n);
        lowest_exists(pool, n);
    }
}

proof fn lowest_exists(pool: Set<u8>, n: u8)
    requires
        container::assignable(n),
        !pool.contains(n),
    ensures
        exists|k: u8| container::is_lowest_free(pool, k),
    decreases n,
{
    if !container::is_lowest_free(pool, n) {
        let k = choose|k: u8| #[trigger] container::assignable(k) && k < n && !pool.contains(k);
        lowest_exists(pool, k);
    }
}

/// The host part of the address with the host part `n` is `n`.
pub proof fn address_has_its_octet(n: u8)
    ensures
        container::host_octet_of(container::address(n)) == Some(n),
{
    reveal_strlit("10.0.0.");
    text::decimal_reads_back(n as nat);
    text::last_segment_of_digits("10.0.0."@, text::decimal(n as nat));
    assert(text::parsed_unsigned(text::decimal(n as nat), 255) == Some(n as nat));
}

/// Different host parts make different addresses.
pub proof fn addresses_differ(a: u8, b: u8)
    requires
        container::address(a) == container::address(b),
    ensures
        a == b,
{
    address_has_its_octet(a);
    address_has_its_octet(b);
}

/// An address that is taken is one that no running container has and that is
/// not reserved; reserving it keeps the addresses in order.
pub proof fn allocation_is_fresh(manager: ManagerView, reserved: Set<u8>, n: u8)
    requires
        addresses_in_order(manager, reserved),
        container::is_lowest_free(manager.pool, n),
    ensures
        !reserved.contains(n),
        forall|id: Seq<char>| !holds(manager, id, n),
        addresses_in_order(
            (ManagerView { pool: manager.pool.insert(n), ..manager }),
            reserved.insert(n),
        ),
{
    let after = ManagerView { pool: manager.pool.insert(n), ..manager };
    assert forall|id: Seq<char>, k: u8| holds(after, id, k) implies holds(manager, id, k) by {}
    assert forall|id: Seq<char>, k: u8| #[trigger] holds(after, id, k) implies after.pool.contains(
        k,
    ) && !reserved.insert(n).contains(k) by {
        assert(holds(manager, id, k));
    }
    assert forall|a: Seq<char>, b: Seq<char>, k: u8| #[trigger]
        holds(after, a, k) && #[trigger] holds(after, b, k) implies a == b by {
        assert(holds(manager, a, k) && holds(manager, b, k));
    }
}

/// Taking an address and giving it back leaves the state as it was.
pub proof fn allocation_is_undone(manager: ManagerView, n: u8)
    requires
        container::is_lowest_free(manager.pool, n),
    ensures
        (ManagerView { pool: manager.pool.insert(n), ..manager }).freed(
            container::address(n),
        ) == manager,
{
    address_has_its_octet(n);
    assert(manager.pool.insert(n).remove(n) =~= manager.pool);
}

/// A container that is put in with a reserved address keeps the addresses in
/// order, and its address is no longer reserved.
pub proof fn insertion_keeps_order(
    manager: ManagerView,
    reserved: Set<u8>,
    info: InfoView,
    n: u8,
)
    requires
        addresses_in_order(manager, reserved),
        reserved.contains(n),
        container::running_octet(info) == Some(n),
    ensures
        addresses_in_order(manager.with(info), reserved.remove(n)),
{
    let after = manager.with(info);
    assert forall|id: Seq<char>, k: u8| #[trigger] holds(after, id, k) implies after.pool.contains(
        k,
    ) && !reserved.remove(n).contains(k) by {
        if id != info.id {
            assert(holds(manager, id, k));
        }
    }
    assert forall|a: Seq<char>, b: Seq<char>, k: u8| #[trigger]
        holds(after, a, k) && #[trigger] holds(after, b, k) implies a == b by {
        if a != info.id {
            assert(holds(manager, a, k));
        }
        if b != info.id {
            assert(holds(manager, b, k));
        }
    }
}

/// A container that is put in without running, in place of an earlier entry or
/// as a new one, keeps the addresses in order. This is what becomes of one
/// that is recorded as stopped.
pub proof fn idle_insertion_keeps_order(manager: ManagerView, reserved: Set<u8>, info: InfoView)
    requires
        addresses_in_order(manager, reserved),
        info.pid is None,
    ensures
        addresses_in_order(manager.with(info), reserved),
{
    let after = manager.with(info);
    assert forall|id: Seq<char>, k: u8| holds(after, id, k) implies holds(manager, id, k) by {}
    assert forall|id: Seq<char>, k: u8| #[trigger] holds(after, id, k) implies after.pool.contains(
        k,
    ) && !reserved.contains(k) by {
        assert(holds(manager, id, k));
    }
    assert forall|a: Seq<char>, b: Seq<char>, k: u8| #[trigger]
        holds(after, a, k) && #[trigger] holds(after, b, k) implies a == b by {
        assert(holds(manager, a, k) && holds(manager, b, k));
    }
}

/// The exit of a running container keeps the addresses in order, and leaves
/// its address free for another.
pub proof fn exit_keeps_order(
    manager: ManagerView,
    reserved: Set<u8>,
    id: Seq<char>,
    pid: u32,
    code: int,
)
    requires
        addresses_in_order(manager, reserved),
        manager.runs(id, pid),
    ensures
        addresses_in_order(manager.after_exit(manager.containers[id], code), reserved),
        forall|n: u8| #[trigger]
            holds(manager, id, n) ==> !manager.after_exit(
                manager.containers[id],
                code,
            ).pool.contains(n),
{
    let info = manager.containers[id];
    let after = manager.after_exit(info, code);
    let done = manager.with(container::exited(info, code));
    idle_insertion_keeps_order(manager, reserved, container::exited(info, code));
    if let Some(ip) = info.ip {
        if let Some(n) = container::host_octet_of(ip) {
            assert(holds(manager, id, n));
            assert forall|a: Seq<char>, k: u8| #[trigger] holds(after, a, k) implies holds(
                done,
                a,
                k,
            ) && k != n by {
                assert(holds(done, a, k));
                assert(holds(manager, a, k));
            }
        } else {
            assert(after == done);
        }
    } else {
        assert(after == done);
    }
}

/// Giving back a reserved address keeps the addresses in order.
pub proof fn release_keeps_order(manager: ManagerView, reserved: Set<u8>, ip: Seq<char>, n: u8)
    requires
        addresses_in_order(manager, reserved),
        reserved.contains(n),
        container::host_octet_of(ip) == Some(n),
    ensures
        addresses_in_order(manager.freed(ip), reserved.remove(n)),
{
    let after = manager.freed(ip);
    assert forall|a: Seq<char>, k: u8| #[trigger] holds(after, a, k) implies after.pool.contains(k)
        && !reserved.remove(n).contains(k) by {
        assert(holds(manager, a, k));
    }
    assert forall|a: Seq<char>, b: Seq<char>, k: u8| #[trigger]
        holds(after, a, k) && #[trigger] holds(after, b, k) implies a == b by {
        assert(holds(manager, a, k) && holds(manager, b, k));
    }
}

/// Forgetting a container keeps the addresses in order.
pub proof fn removal_keeps_order(manager: ManagerView, reserved: Set<u8>, id: Seq<char>)
    requires
        addresses_in_order(manager, reserved),
    ensures
        addresses_in_order(manager.without(id), reserved),
{
    let after = manager.without(id);
    assert forall|a: Seq<char>, k: u8| holds(after, a, k) implies holds(manager, a, k) by {}
    assert forall|a: Seq<char>, k: u8| #[trigger] holds(after, a, k) implies after.pool.contains(k)
        && !reserved.contains(k) by {
        assert(holds(manager, a, k));
    }
    assert forall|a: Seq<char>, b: Seq<char>, k: u8| #[trigger]
        holds(after, a, k) && #[trigger] holds(after, b, k) implies a == b by {
        assert(holds(manager, a, k) && holds(manager, b, k));
    }
}

/// Whether no two of the entries run with the same address.
pub open spec fn distinct_addresses(entries: Seq<InfoView>) -> bool {
    forall|i: int, j: int|
        0 <= i < j < entries.len() && container::running_octet(#[trigger] entries[i])
            is Some ==> container::running_octet(entries[i]) != container::running_octet(
            #[trigger] entries[j],
        )
}

/// A daemon that starts with containers of which no two share an identifier
/// or a running address has its addresses in order, none of them reserved.
pub proof fn restart_in_order(entries: Seq<InfoView>)
    requires
        container::distinct_ids(entries),
        distinct_addresses(entries),
    ensures
        addresses_in_order(container::restored(entries), Set::empty()),
{
    let manager = container::restored(entries);
    container::by_id_finds(entries);
    assert forall|id: Seq<char>, n: u8| #[trigger] holds(manager, id, n) implies exists|i: int|
        0 <= i < entries.len() && (#[trigger] entries[i]).id == id
            && container::running_octet(entries[i]) == Some(n) by {
        let i = choose|i: int| 0 <= i < entries.len() && (#[trigger] entries[i]).id == id;
        assert(manager.containers[id] == entries[i]);
    }
    assert forall|a: Seq<char>, b: Seq<char>, n: u8| #[trigger]
        holds(manager, a, n) && #[trigger] holds(manager, b, n) implies a == b by {
        let i = choose|i: int|
            0 <= i < entries.len() && (#[trigger] entries[i]).id == a
                && container::running_octet(entries[i]) == Some(n);
        let j = choose|j: int|
            0 <= j < entries.len() && (#[trigger] entries[j]).id == b
                && container::running_octet(entries[j]) == Some(n);
        if i < j {
            assert(entries[i].id != entries[j].id);
        }
    }
}

/// A daemon that starts with the containers of another one whose addresses
/// were in order has its addresses in order: those that run keep theirs.
pub proof fn restart_keeps_order(
    manager: ManagerView,
    reserved: Set<u8>,
    entries: Seq<InfoView>,
)
    requires
        addresses_in_order(manager, reserved),
        container::lists(entries, manager.containers),
    ensures
        addresses_in_order(container::restored(entries), Set::empty()),
        forall|id: Seq<char>, n: u8| #[trigger]
            holds(manager, id, n) ==> container::restored(entries).pool.contains(n),
{
    container::by_id_finds(entries);
    assert forall|i: int, j: int|
        0 <= i < j < entries.len() && container::running_octet(#[trigger] entries[i])
            is Some implies container::running_octet(entries[i]) != container::running_octet(
        #[trigger] entries[j],
    ) by {
        let n = container::running_octet(entries[i])->0;
        assert(holds(manager, entries[i].id, n));
        if container::running_octet(entries[j]) == Some(n) {
            assert(holds(manager, entries[j].id, n));
        }
    }
    restart_in_order(entries);
    assert forall|id: Seq<char>, n: u8| #[trigger] holds(manager, id, n) implies
        container::restored(entries).pool.contains(n) by {
        assert(holds(container::restored(entries), id, n));
    }
}

/// A container that was recorded as stopped, or that has exited, is still
/// known and may be removed; one that runs may not.
pub proof fn removal_needs_an_end(manager: ManagerView, id: Seq<char>, pid: u32, code: int)
    requires
        manager.keyed(),
        manager.runs(id, pid),
    ensures
        container::removable(manager, id) == Err::<(), AppErrorView>(
            AppErrorView::StillRunning(id),
        ),
        container::removable(
            manager.with(container::stopped(manager.containers[id])),
            id,
        ) is Ok,
        container::removable(manager.after_exit(manager.containers[id], code), id) is Ok,
{
}

/// Once a container has been forgotten it is not known any more, and the
/// others are as they were.
pub proof fn removal_is_complete(manager: ManagerView, id: Seq<char>, other: Seq<char>)
    requires
        other != id,
    ensures
        container::removable(manager.without(id), id) == Err::<
            (),
            AppErrorView,
        >(AppErrorView::NotFound(id)),
        manager.without(id).containers.contains_key(other) == manager.containers.contains_key(
            other,
        ),
        manager.containers.contains_key(other) ==> manager.without(id).containers[other]
            == manager.containers[other],
{
}

/// The exit of a container leaves the others as they were.
pub proof fn exit_touches_one(
    manager: ManagerView,
    id: Seq<char>,
    pid: u32,
    code: int,
    other: Seq<char>,
)
    requires
        manager.keyed(),
        manager.runs(id, pid),
        other != id,
    ensures
        ({
            let after = manager.after_exit(manager.containers[id], code);
            &&& after.containers.contains_key(other) == manager.containers.contains_key(other)
            &&& manager.containers.contains_key(other) ==> after.containers[other]
                == manager.containers[other]
        }),
{
}

} // verus!
