//! What is kept of containers and of their addresses, and what each change does
//! to it.

use crate::container::{ContainerInfo, InfoView, ManagerView};
use crate::error::AppErrorView;
use crate::{container, text};
use vstd::prelude::*;

verus! {

/// A record is all of what it holds.
pub proof fn record_is_seen_whole(info: ContainerInfo)
    ensures
        info@.id == info.id@,
        info@.command == info.command.deep_view(),
        info@.state == info.state@,
        info@.memory_limit == info.memory_limit@,
        info@.pid == info.pid,
        match info.ip {
            Some(ip) => info@.ip == Some(ip@),
            None => info@.ip is None,
        },
        info.deep_view() == info@,
{
}

/// The host part of an address is the number that follows its last full stop,
/// with any zeros in front, if it is one of eight bits; what stands before does
/// not matter.
pub proof fn host_part_follows_the_last_stop(head: Seq<char>, zeros: nat, n: nat)
    ensures
        container::host_octet_of(head + "."@ + (text::laws::zeros(zeros) + text::decimal(n))) == (
        if n <= 255 {
            Some(n as u8)
        } else {
            None
        }),
{
    let digits = text::laws::zeros(zeros) + text::decimal(n);
    text::decimal_reads_back(n);
    assert forall|i: int| 0 <= i < digits.len() implies text::is_digit(#[trigger] digits[i]) by {
        if i >= zeros {
            assert(digits[i] == text::decimal(n)[i - zeros]);
        }
    }
    if digits.contains('.') {
        let i = choose|i: int| 0 <= i < digits.len() && digits[i] == '.';
        assert(text::is_digit(digits[i]));
    }
    text::laws::segment_is_what_follows_a_stop(head, digits);
    text::laws::numbers_are_read(zeros, n, 255);
}

/// There is no host part where what follows the last full stop is not a number.
pub proof fn other_text_has_no_host_part(head: Seq<char>, tail: Seq<char>, i: int)
    requires
        !tail.contains('.'),
        tail == ""@ || tail == "+"@ || (0 <= i < tail.len() && !('0' <= tail[i] && tail[i] <= '9')
            && !(i == 0 && tail[0] == '+')),
    ensures
        container::host_octet_of(head + "."@ + tail) is None,
        container::host_octet_of(tail) is None,
{
    text::laws::segment_is_what_follows_a_stop(head, tail);
    text::laws::only_numbers_are_read(tail, 255, i);
}

/// The addresses of containers are those of one network, by the number of the
/// host in it, which reads back.
pub proof fn address_is_in_the_network(n: u8)
    ensures
        container::address(n) == "10.0.0."@ + text::decimal(n as nat),
        container::host_octet_of(container::address(n)) == Some(n),
        container::assignable(n) <==> 2 <= n <= 254,
{
    container::laws::address_has_its_octet(n);
}

/// The address that is given out is the lowest of those from 2 to 254 that is
/// not taken; none is just when all of these are taken.
pub proof fn lowest_address_is_given_out(pool: Set<u8>)
    ensures
        match container::first_free(pool) {
            Some(n) => 2 <= n <= 254 && !pool.contains(n) && forall|k: u8|
                2 <= k < n ==> #[trigger] pool.contains(k),
            None => forall|k: u8| 2 <= k <= 254 ==> #[trigger] pool.contains(k),
        },
{
    match container::first_free(pool) {
        Some(n) => {
            assert(container::is_lowest_free(pool, n));
            assert forall|k: u8| 2 <= k < n implies #[trigger] pool.contains(k) by {
                assert(container::assignable(k));
            }
        },
        None => {
            assert forall|k: u8| 2 <= k <= 254 implies #[trigger] pool.contains(k) by {
                lemma_lowest(pool, 2, k);
            }
        },
    }
}

proof fn lemma_lowest(pool: Set<u8>, from: u8, k: u8)
    requires
        2 <= from <= k <= 254,
        container::first_free(pool) is None,
        forall|j: u8| 2 <= j < from ==> #[trigger] pool.contains(j),
    ensures
        pool.contains(k),
    decreases k - from,
{
    if !pool.contains(from) {
        assert forall|j: u8| #[trigger] container::assignable(j) && j < from implies pool.contains(
            j,
        ) by {
            assert(2 <= j < from);
        }
        assert(container::is_lowest_free(pool, from));
    } else if from < k {
        lemma_lowest(pool, (from + 1) as u8, k);
    }
}

/// To record a container is to put all of its record under its identifier, and
/// to forget one is to take that away; neither touches another container, nor
/// the addresses.
pub proof fn records_are_kept_by_identifier(
    manager: ManagerView,
    info: InfoView,
    id: Seq<char>,
    other: Seq<char>,
)
    ensures
        manager.with(info).containers.contains_key(info.id),
        manager.with(info).containers[info.id] == info,
        manager.with(info).pool == manager.pool,
        other != info.id ==> manager.with(info).containers.contains_key(other)
            == manager.containers.contains_key(other) && manager.with(info).containers[other]
            == manager.containers[other],
        !manager.without(id).containers.contains_key(id),
        manager.without(id).pool == manager.pool,
        other != id ==> manager.without(id).containers.contains_key(other)
            == manager.containers.contains_key(other) && (manager.containers.contains_key(other)
            ==> manager.without(id).containers[other] == manager.containers[other]),
{
}

/// To free an address is to free its host part and no other, and touches no
/// container. What is no address frees nothing.
pub proof fn one_address_is_freed(manager: ManagerView, ip: Seq<char>, n: u8)
    ensures
        manager.freed(ip).containers == manager.containers,
        manager.freed(ip).pool.contains(n) <==> manager.pool.contains(n)
            && container::host_octet_of(ip) != Some(n),
{
}

/// A container that is stopped has no process, and one that exits shows its
/// code; all else of them is as it was.
pub proof fn end_changes_state_and_process(info: InfoView, code: int)
    ensures
        container::stopped(info) == (InfoView {
            id: info.id,
            command: info.command,
            state: "Stopped"@,
            memory_limit: info.memory_limit,
            pid: None,
            ip: info.ip,
        }),
        container::exited(info, code) == (InfoView {
            id: info.id,
            command: info.command,
            state: "Exited("@ + text::signed_decimal(code) + ")"@,
            memory_limit: info.memory_limit,
            pid: None,
            ip: info.ip,
        }),
{
}

proof fn lemma_signed_reads_back(n: int) -> (digits: Seq<char>)
    ensures
        digits.len() > 0,
        text::is_digit(digits[0]),
        n >= 0 ==> text::signed_decimal(n) == digits && text::digits_value(digits) == n,
        n < 0 ==> text::signed_decimal(n) == seq!['-'] + digits && text::digits_value(digits) == -n,
{
    let size = if n >= 0 {
        n as nat
    } else {
        (-n) as nat
    };
    text::decimal_reads_back(size);
    let digits = text::decimal(size);
    assert(text::is_digit(digits[0]));
    if n < 0 {
        assert(text::signed_decimal(n) =~= seq!['-'] + digits);
    }
    digits
}

/// Exits with different codes show as different states.
pub proof fn codes_are_told_apart(info: InfoView, a: int, b: int)
    requires
        container::exited(info, a).state == container::exited(info, b).state,
    ensures
        a == b,
{
    let (x, y) = (text::signed_decimal(a), text::signed_decimal(b));
    assert(x == y) by {
        let s = container::exited(info, a).state;
        let n = "Exited("@.len() as int;
        let m = s.len() - ")"@.len();
        assert(x =~= s.subrange(n, m));
        assert(y =~= s.subrange(n, m));
    }
    let c = lemma_signed_reads_back(a);
    let d = lemma_signed_reads_back(b);
    if a < 0 {
        assert((seq!['-'] + c)[0] == '-');
        assert(c =~= (seq!['-'] + c).skip(1));
    }
    if b < 0 {
        assert((seq!['-'] + d)[0] == '-');
        assert(d =~= (seq!['-'] + d).skip(1));
    }
}

/// The exit of a container records its end under its identifier and frees its
/// address, and leaves everything else.
pub proof fn exit_changes_one_record_and_its_address(
    manager: ManagerView,
    info: InfoView,
    code: int,
    other: Seq<char>,
    n: u8,
)
    ensures
        ({
            let after = manager.after_exit(info, code);
            &&& after.containers.contains_key(info.id)
            &&& after.containers[info.id].pid is None
            &&& after.containers[info.id].state == "Exited("@ + text::signed_decimal(code) + ")"@
            &&& after.containers[info.id].id == info.id
            &&& after.containers[info.id].command == info.command
            &&& after.containers[info.id].memory_limit == info.memory_limit
            &&& after.containers[info.id].ip == info.ip
            &&& other != info.id ==> after.containers.contains_key(other)
                == manager.containers.contains_key(other) && after.containers[other]
                == manager.containers[other]
            &&& after.pool.contains(n) <==> manager.pool.contains(n) && !(info.ip is Some
                && container::host_octet_of(info.ip->0) == Some(n))
        }),
{
}

/// A container runs as a process just when its record says so.
pub proof fn running_is_having_the_process(manager: ManagerView, id: Seq<char>, pid: u32)
    ensures
        manager.runs(id, pid) <==> manager.containers.contains_key(id)
            && manager.containers[id].pid == Some(pid),
        manager.keyed() <==> forall|key: Seq<char>| #[trigger]
            manager.containers.contains_key(key) ==> manager.containers[key].id == key,
{
}

/// A container may be removed just when it is known and has no process; if not,
/// the error names it and says which of the two it is.
pub proof fn only_ended_containers_are_removed(manager: ManagerView, id: Seq<char>)
    ensures
        match container::removable(manager, id) {
            Ok(_) => manager.containers.contains_key(id) && manager.containers[id].pid is None,
            Err(AppErrorView::NotFound(name)) => name == id && !manager.containers.contains_key(id),
            Err(AppErrorView::StillRunning(name)) => name == id && manager.containers.contains_key(
                id,
            ) && manager.containers[id].pid is Some,
            _ => false,
        },
{
}

/// A daemon that starts with no records knows no container, and no address is
/// taken.
pub proof fn nothing_is_restored_of_nothing()
    ensures
        forall|id: Seq<char>| !#[trigger] container::restored(seq![]).containers.contains_key(id),
        forall|n: u8| !#[trigger] container::restored(seq![]).pool.contains(n),
{
}

/// One record more is found under its identifier, in place of an earlier one
/// with the same; the others stay. It takes the address in it just when it has
/// a process too.
pub proof fn restored_record_stands(entries: Seq<InfoView>, info: InfoView, n: u8)
    ensures
        ({
            let before = container::restored(entries);
            let after = container::restored(entries.push(info));
            &&& after.containers == before.containers.insert(info.id, info)
            &&& after.pool.contains(n) <==> before.pool.contains(n) || (info.pid is Some
                && info.ip is Some && container::host_octet_of(info.ip->0) == Some(n))
        }),
{
    let all = entries.push(info);
    assert(all.drop_last() =~= entries);
    let before = container::octets_of(entries);
    let after = container::octets_of(all);
    if before.contains(n) {
        let i = choose|i: int|
            0 <= i < entries.len() && container::running_octet(#[trigger] entries[i]) == Some(n);
        assert(all[i] == entries[i]);
        assert(after.contains(n));
    }
    if container::running_octet(info) == Some(n) {
        assert(all[entries.len() as int] == info);
        assert(after.contains(n));
    }
    if after.contains(n) {
        let i = choose|i: int|
            0 <= i < all.len() && container::running_octet(#[trigger] all[i]) == Some(n);
        if i < entries.len() {
            assert(entries[i] == all[i]);
            assert(before.contains(n));
        } else {
            assert(all[i] == info);
        }
    }
}

/// A list of the containers has each of them once, as it is recorded, and
/// nothing else.
pub proof fn list_has_each_container_once(
    entries: Seq<InfoView>,
    containers: Map<Seq<char>, InfoView>,
)
    requires
        container::lists(entries, containers),
    ensures
        forall|i: int, j: int|
            0 <= i < j < entries.len() ==> (#[trigger] entries[i]).id != (
            #[trigger] entries[j]).id,
        forall|i: int|
            0 <= i < entries.len() ==> containers.contains_key((#[trigger] entries[i]).id)
                && containers[entries[i].id] == entries[i],
        forall|id: Seq<char>| #[trigger]
            containers.contains_key(id) ==> exists|i: int|
                0 <= i < entries.len() && (#[trigger] entries[i]).id == id,
{
    container::by_id_finds(entries);
}

} // verus!
