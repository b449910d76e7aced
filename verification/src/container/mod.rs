//! The containers that the daemon knows of, and the addresses that are taken.

pub mod laws;
pub mod records;

use crate::error::{AppError, AppErrorView};
use crate::storage::SavePlan;
use crate::{storage, text};
use std::collections::HashSet;
use vstd::prelude::*;

verus! {

/// What is known of a container. It is running as long as it has a process
/// identifier.
#[derive(Debug)]
pub struct ContainerInfo {
    pub id: String,
    pub command: Vec<String>,
    pub state: String,
    pub memory_limit: String,
    pub pid: Option<u32>,
    pub ip: Option<String>,
}

#[verifier::ext_equal]
pub struct InfoView {
    pub id: Seq<char>,
    pub command: Seq<Seq<char>>,
    pub state: Seq<char>,
    pub memory_limit: Seq<char>,
    pub pid: Option<u32>,
    pub ip: Option<Seq<char>>,
}

impl View for ContainerInfo {
    type V = InfoView;

    open spec fn view(&self) -> InfoView {
        InfoView {
            id: self.id@,
            command: self.command.deep_view(),
            state: self.state@,
            memory_limit: self.memory_limit@,
            pid: self.pid,
            ip: self.ip.deep_view(),
        }
    }
}

impl DeepView for ContainerInfo {
    type V = InfoView;

    open spec fn deep_view(&self) -> InfoView {
        self@
    }
}

impl Clone for ContainerInfo {
    fn clone(&self) -> (copy: Self)
        ensures
            copy@ == self@,
    {
        ContainerInfo {
            id: self.id.clone(),
            command: text::copy_words(&self.command),
            state: self.state.clone(),
            memory_limit: self.memory_limit.clone(),
            pid: self.pid,
            ip: text::copy_word(&self.ip),
        }
    }
}

/// The signals that the daemon sends.
#[derive(Debug, Clone, Copy, PartialEq, Eq, Structural)]
pub enum Signal {
    Terminate,
    Kill,
}

/// A signal on its way to a process.
#[derive(Debug, Clone, Copy, PartialEq, Eq, Structural)]
pub struct Kill {
    pub pid: i32,
    pub signal: Signal,
}

#[verifier::ext_equal]
pub struct ManagerView {
    /// The containers by their identifiers.
    pub containers: Map<Seq<char>, InfoView>,
    /// The host parts of the addresses that are taken.
    pub pool: Set<u8>,
}

impl ManagerView {
    /// The state with `info` in it.
    pub open spec fn with(self, info: InfoView) -> ManagerView {
        ManagerView { containers: self.containers.insert(info.id, info), ..self }
    }

    /// The state without the container `id`.
    pub open spec fn without(self, id: Seq<char>) -> ManagerView {
        ManagerView { containers: self.containers.remove(id), ..self }
    }

    /// The state with the address `ip` free.
    pub open spec fn freed(self, ip: Seq<char>) -> ManagerView {
        match host_octet_of(ip) {
            Some(n) => ManagerView { pool: self.pool.remove(n), ..self },
            None => self,
        }
    }

    /// The state after `info`, one of its containers, has exited. The address
    /// that it had is free.
    pub open spec fn after_exit(self, info: InfoView, code: int) -> ManagerView {
        match info.ip {
            Some(ip) => self.with(exited(info, code)).freed(ip),
            None => self.with(exited(info, code)),
        }
    }

    /// Whether each container stands under its own identifier.
    pub open spec fn keyed(self) -> bool {
        forall|id: Seq<char>| #[trigger]
            self.containers.contains_key(id) ==> self.containers[id].id == id
    }

    /// Whether the container `id` runs under the process identifier `pid`.
    pub open spec fn runs(self, id: Seq<char>, pid: u32) -> bool {
        self.containers.contains_key(id) && self.containers[id].pid == Some(pid)
    }
}

/// The host part of an address: the number after its last full stop.
pub open spec fn host_octet_of(ip: Seq<char>) -> Option<u8> {
    match text::parsed_unsigned(text::last_segment(ip), 255) {
        Some(n) => Some(n as u8),
        None => None,
    }
}

/// The host part of the address that a container holds while it runs.
pub open spec fn running_octet(info: InfoView) -> Option<u8> {
    match (info.pid, info.ip) {
        (Some(_), Some(ip)) => host_octet_of(ip),
        _ => None,
    }
}

/// The entries by their identifiers. Of two with the same one, the later
/// stands.
pub open spec fn by_id(entries: Seq<InfoView>) -> Map<Seq<char>, InfoView>
    decreases entries.len(),
{
    if entries.len() == 0 {
        Map::empty()
    } else {
        by_id(entries.drop_last()).insert(entries.last().id, entries.last())
    }
}

/// The host parts that running containers among the entries hold.
pub open spec fn octets_of(entries: Seq<InfoView>) -> Set<u8> {
    Set::new(|n: u8| exists|i: int| 0 <= i < entries.len() && running_octet(#[trigger] entries[i]) == Some(n))
}

pub open spec fn distinct_ids(entries: Seq<InfoView>) -> bool {
    forall|i: int, j: int|
        0 <= i < j < entries.len() ==> (#[trigger] entries[i]).id != (#[trigger] entries[j]).id
}

/// The state of a daemon that starts with the given containers.
pub open spec fn restored(entries: Seq<InfoView>) -> ManagerView {
    ManagerView { containers: by_id(entries), pool: octets_of(entries) }
}

/// Whether `entries` lists each container of `containers` once, and nothing
/// else.
pub open spec fn lists(entries: Seq<InfoView>, containers: Map<Seq<char>, InfoView>) -> bool {
    distinct_ids(entries) && by_id(entries) == containers
}

pub open spec fn stopped(info: InfoView) -> InfoView {
    InfoView { state: "Stopped"@, pid: None, ..info }
}

pub open spec fn exited(info: InfoView, code: int) -> InfoView {
    InfoView { state: "Exited("@ + text::signed_decimal(code) + ")"@, pid: None, ..info }
}

/// The address with the host part `n` in the network of the containers.
pub open spec fn address(n: u8) -> Seq<char> {
    "10.0.0."@ + text::decimal(n as nat)
}

/// The host parts that containers can get.
pub open spec fn assignable(n: u8) -> bool {
    2 <= n <= 254
}

/// The lowest host part that a container can get and that is not taken.
pub open spec fn is_lowest_free(pool: Set<u8>, n: u8) -> bool {
    &&& assignable(n)
    &&& !pool.contains(n)
    &&& forall|k: u8| #[trigger] assignable(k) && k < n ==> pool.contains(k)
}

/// The lowest host part that a container can get and that is not taken, if
/// there is one.
pub open spec fn first_free(pool: Set<u8>) -> Option<u8> {
    if exists|n: u8| is_lowest_free(pool, n) {
        Some(choose|n: u8| is_lowest_free(pool, n))
    } else {
        None
    }
}

/// Among entries with distinct identifiers, each is found under its own, and
/// nothing else is found.
pub proof fn by_id_finds(entries: Seq<InfoView>)
    requires
        distinct_ids(entries),
    ensures
        forall|i: int|
            0 <= i < entries.len() ==> by_id(entries).contains_key((#[trigger] entries[i]).id)
                && by_id(entries)[entries[i].id] == entries[i],
        forall|id: Seq<char>| #[trigger]
            by_id(entries).contains_key(id) ==> exists|i: int|
                0 <= i < entries.len() && (#[trigger] entries[i]).id == id,
    decreases entries.len(),
{
    if entries.len() > 0 {
        let init = entries.drop_last();
        by_id_finds(init);
        assert forall|i: int| 0 <= i < entries.len() implies by_id(entries).contains_key(
            (#[trigger] entries[i]).id,
        ) && by_id(entries)[entries[i].id] == entries[i] by {
            if i < init.len() {
                assert(init[i] == entries[i]);
            }
        }
        assert forall|id: Seq<char>| #[trigger] by_id(entries).contains_key(id) implies exists|i: int|
            0 <= i < entries.len() && (#[trigger] entries[i]).id == id by {
            if id == entries.last().id {
                assert(entries[entries.len() - 1].id == id);
            } else {
                assert(by_id(init).contains_key(id));
                let i = choose|i: int| 0 <= i < init.len() && (#[trigger] init[i]).id == id;
                assert(entries[i].id == id);
            }
        }
    }
}

proof fn lemma_by_id_update(entries: Seq<InfoView>, i: int, info: InfoView)
    requires
        distinct_ids(entries),
        0 <= i < entries.len(),
        info.id == entries[i].id,
    ensures
        distinct_ids(entries.update(i, info)),
        by_id(entries.update(i, info)) == by_id(entries).insert(info.id, info),
{
    let changed = entries.update(i, info);
    assert forall|a: int, b: int| 0 <= a < b < changed.len() implies (#[trigger] changed[a]).id != (
    #[trigger] changed[b]).id by {
        assert(changed[a].id == entries[a].id);
        assert(changed[b].id == entries[b].id);
    }
    by_id_finds(entries);
    by_id_finds(changed);
    let want = by_id(entries).insert(info.id, info);
    assert forall|id: Seq<char>| by_id(changed).contains_key(id) == want.contains_key(id) by {
        if by_id(changed).contains_key(id) {
            let k = choose|k: int| 0 <= k < changed.len() && (#[trigger] changed[k]).id == id;
            assert(entries[k].id == id);
        }
        if want.contains_key(id) {
            if id == info.id {
                assert(changed[i].id == id);
            } else {
                let k = choose|k: int| 0 <= k < entries.len() && (#[trigger] entries[k]).id == id;
                assert(changed[k].id == id);
            }
        }
    }
    assert forall|id: Seq<char>| by_id(changed).contains_key(id) implies by_id(changed)[id]
        == want[id] by {
        let k = choose|k: int| 0 <= k < changed.len() && (#[trigger] changed[k]).id == id;
        if k != i {
            assert(changed[k] == entries[k]);
            assert(changed[i].id != changed[k].id);
        }
    }
    assert(by_id(changed) =~= want);
}

proof fn lemma_by_id_remove(entries: Seq<InfoView>, i: int)
    requires
        distinct_ids(entries),
        0 <= i < entries.len(),
    ensures
        distinct_ids(entries.remove(i)),
        by_id(entries.remove(i)) == by_id(entries).remove(entries[i].id),
{
    let rest = entries.remove(i);
    by_id_finds(entries);
    assert forall|a: int, b: int| 0 <= a < b < rest.len() implies (#[trigger] rest[a]).id != (
    #[trigger] rest[b]).id by {
        let a0 = if a < i { a } else { a + 1 };
        let b0 = if b < i { b } else { b + 1 };
        assert(rest[a] == entries[a0]);
        assert(rest[b] == entries[b0]);
    }
    by_id_finds(rest);
    let want = by_id(entries).remove(entries[i].id);
    assert forall|id: Seq<char>| by_id(rest).contains_key(id) == want.contains_key(id) by {
        if by_id(rest).contains_key(id) {
            let k = choose|k: int| 0 <= k < rest.len() && (#[trigger] rest[k]).id == id;
            let k0 = if k < i { k } else { k + 1 };
            assert(rest[k] == entries[k0]);
        }
        if want.contains_key(id) {
            let k = choose|k: int| 0 <= k < entries.len() && (#[trigger] entries[k]).id == id;
            let k0 = if k < i { k } else { k - 1 };
            assert(rest[k0] == entries[k]);
        }
    }
    assert forall|id: Seq<char>| by_id(rest).contains_key(id) implies by_id(rest)[id]
        == want[id] by {
        let k = choose|k: int| 0 <= k < rest.len() && (#[trigger] rest[k]).id == id;
        let k0 = if k < i { k } else { k + 1 };
        assert(rest[k] == entries[k0]);
    }
    assert(by_id(rest) =~= want);
}

proof fn lemma_by_id_push(entries: Seq<InfoView>, info: InfoView)
    requires
        distinct_ids(entries),
        !by_id(entries).contains_key(info.id),
    ensures
        distinct_ids(entries.push(info)),
        by_id(entries.push(info)) == by_id(entries).insert(info.id, info),
{
    let longer = entries.push(info);
    by_id_finds(entries);
    assert(longer.drop_last() =~= entries);
    assert forall|a: int, b: int| 0 <= a < b < longer.len() implies (#[trigger] longer[a]).id != (
    #[trigger] longer[b]).id by {
        assert(longer[a] == entries[a]);
        if b < entries.len() {
            assert(longer[b] == entries[b]);
        }
    }
}

/// The host part of an address.
pub fn host_octet(ip: &str) -> (octet: Option<u8>)
    ensures
        octet == host_octet_of(ip@),
{
    match text::parse_unsigned(text::after_last_stop(ip), 255) {
        Some(n) => Some(n as u8),
        None => None,
    }
}

/// The state that the daemon keeps: its containers and the addresses that are
/// taken.
pub struct ContainerManager {
    containers: Vec<ContainerInfo>,
    ip_pool: HashSet<u8>,
}

impl View for ContainerManager {
    type V = ManagerView;

    closed spec fn view(&self) -> ManagerView {
        ManagerView { containers: by_id(self.containers.deep_view()), pool: self.ip_pool@ }
    }
}

impl ContainerManager {
    /// No two entries have the same identifier.
    pub closed spec fn wf(&self) -> bool {
        distinct_ids(self.containers.deep_view())
    }

    /// Each container stands under its own identifier.
    pub proof fn containers_are_keyed(&self)
        requires
            self.wf(),
        ensures
            self@.keyed(),
    {
        let entries = self.containers.deep_view();
        by_id_finds(entries);
        assert forall|id: Seq<char>| #[trigger] self@.containers.contains_key(id) implies
            self@.containers[id].id == id by {
            let i = choose|i: int| 0 <= i < entries.len() && (#[trigger] entries[i]).id == id;
            assert(by_id(entries)[id] == entries[i]);
        }
    }

    fn position(&self, id: &str) -> (position: Option<usize>)
        requires
            self.wf(),
        ensures
            match position {
                Some(i) => i < self.containers.len() && self.containers[i as int].id@ == id@
                    && self@.containers.contains_key(id@) && self@.containers[id@]
                    == self.containers[i as int]@,
                None => !self@.containers.contains_key(id@),
            },
    {
        let ghost entries = self.containers.deep_view();
        proof {
            by_id_finds(entries);
        }
        let mut i: usize = 0;
        while i < self.containers.len()
            invariant
                i <= self.containers.len(),
                entries == self.containers.deep_view(),
                self@.containers == by_id(entries),
                forall|k: int|
                    0 <= k < entries.len() ==> by_id(entries).contains_key(
                        (#[trigger] entries[k]).id,
                    ) && by_id(entries)[entries[k].id] == entries[k],
                forall|k: int| 0 <= k < i ==> (#[trigger] entries[k]).id != id@,
            decreases self.containers.len() - i,
        {
            assert(entries[i as int] == self.containers[i as int]@);
            if text::same_text(self.containers[i].id.as_str(), id) {
                return Some(i);
            }
            i += 1;
        }
        None
    }

    fn replace(&mut self, i: usize, info: ContainerInfo)
        requires
            old(self).wf(),
            i < old(self).containers.len(),
            info.id@ == old(self).containers[i as int].id@,
        ensures
            final(self).wf(),
            final(self)@ == old(self)@.with(info@),
    {
        proof {
            lemma_by_id_update(self.containers.deep_view(), i as int, info@);
        }
        let ghost before = self.containers.deep_view();
        let ghost entry = info@;
        self.containers.set(i, info);
        assert(self.containers.deep_view() =~= before.update(i as int, entry));
    }

    /// Puts a container in, in place of the one with the same identifier, if
    /// there is one.
    pub fn insert(&mut self, info: ContainerInfo)
        requires
            old(self).wf(),
        ensures
            final(self).wf(),
            final(self)@ == old(self)@.with(info@),
    {
        match self.position(info.id.as_str()) {
            Some(i) => self.replace(i, info),
            None => {
                proof {
                    lemma_by_id_push(self.containers.deep_view(), info@);
                }
                let ghost before = self.containers.deep_view();
                let ghost entry = info@;
                self.containers.push(info);
                assert(self.containers.deep_view() =~= before.push(entry));
            },
        }
    }

    /// The manager of a daemon that starts with the containers that have been
    /// loaded, or with none if they could not be. Those that run keep their
    /// addresses.
    pub fn new(loaded: Result<Vec<ContainerInfo>, AppError>) -> (manager: Self)
        ensures
            manager.wf(),
            manager@ == (match loaded {
                Ok(list) => restored(list.deep_view()),
                Err(_) => restored(seq![]),
            }),
    {
        let loaded = match loaded {
            Ok(list) => list,
            Err(_) => Vec::new(),
        };
        broadcast use vstd::std_specs::hash::group_hash_axioms;

        let mut manager = ContainerManager { containers: Vec::new(), ip_pool: HashSet::new() };
        let ghost all = loaded.deep_view();
        assert(manager.containers.deep_view() =~= seq![]);
        assert(all.take(0) =~= seq![]);
        assert(octets_of(all.take(0)) =~= Set::empty());
        let mut i: usize = 0;
        while i < loaded.len()
            invariant
                i <= loaded.len(),
                all == loaded.deep_view(),
                manager.wf(),
                manager@.containers == by_id(all.take(i as int)),
                manager@.pool == octets_of(all.take(i as int)),
            decreases loaded.len() - i,
        {
            broadcast use vstd::std_specs::hash::group_hash_axioms;

            let info = loaded[i].clone();
            let ghost done = all.take(i as int);
            let ghost next = all.take(i + 1);
            assert(next.drop_last() =~= done);
            assert(next.last() == info@);
            let ghost pool = manager@.pool;
            if info.pid.is_some() {
                if let Some(ip) = &info.ip {
                    if let Some(n) = host_octet(ip.as_str()) {
                        manager.ip_pool.insert(n);
                    }
                }
            }
            proof {
                let want = match running_octet(info@) {
                    Some(n) => pool.insert(n),
                    None => pool,
                };
                assert(manager@.pool =~= want);
                assert forall|n: u8| want.contains(n) == octets_of(next).contains(n) by {
                    if octets_of(done).contains(n) {
                        let k = choose|k: int|
                            0 <= k < done.len() && running_octet(#[trigger] done[k]) == Some(n);
                        assert(next[k] == done[k]);
                    }
                    if octets_of(next).contains(n) {
                        let k = choose|k: int|
                            0 <= k < next.len() && running_octet(#[trigger] next[k]) == Some(n);
                        if k < done.len() {
                            assert(done[k] == next[k]);
                        }
                    }
                    if running_octet(info@) == Some(n) {
                        assert(running_octet(next[done.len() as int]) == Some(n));
                    }
                }
                assert(manager@.pool =~= octets_of(next));
            }
            manager.insert(info);
            i += 1;
        }
        assert(all.take(all.len() as int) =~= all);
        assert(all.len() == 0 ==> all =~= seq![]);
        manager
    }

    /// All containers.
    pub fn list(&self) -> (entries: Vec<ContainerInfo>)
        requires
            self.wf(),
        ensures
            lists(entries.deep_view(), self@.containers),
    {
        let mut entries: Vec<ContainerInfo> = Vec::new();
        let mut i: usize = 0;
        while i < self.containers.len()
            invariant
                i <= self.containers.len(),
                entries.deep_view() =~= self.containers.deep_view().take(i as int),
            decreases self.containers.len() - i,
        {
            let ghost before = entries.deep_view();
            let copy = self.containers[i].clone();
            let ghost entry = copy@;
            entries.push(copy);
            assert(entries.deep_view() =~= before.push(entry));
            i += 1;
        }
        assert(entries.deep_view() =~= self.containers.deep_view());
        entries
    }

    /// The container with an identifier.
    pub fn get(&self, id: &str) -> (found: Option<&ContainerInfo>)
        requires
            self.wf(),
        ensures
            match found {
                Some(info) => self@.containers.contains_key(id@) && info@
                    == self@.containers[id@],
                None => !self@.containers.contains_key(id@),
            },
    {
        match self.position(id) {
            Some(i) => Some(&self.containers[i]),
            None => None,
        }
    }

    /// Records that a container has stopped, and says how this is saved. Its
    /// address stays taken.
    pub fn stop(&mut self, id: &str) -> (found: Option<(String, SavePlan)>)
        requires
            old(self).wf(),
        ensures
            final(self).wf(),
            match found {
                Some((text, plan)) => old(self)@.containers.contains_key(id@) && text@ == id@
                    && final(self)@ == old(self)@.with(stopped(old(self)@.containers[id@]))
                    && plan@ == storage::save_plan(stopped(old(self)@.containers[id@])),
                None => !old(self)@.containers.contains_key(id@) && final(self)@ == old(self)@,
            },
    {
        match self.position(id) {
            Some(i) => {
                let mut info = self.containers[i].clone();
                info.state = "Stopped".to_owned();
                info.pid = None;
                assert(info@ =~= stopped(self.containers[i as int]@));
                let plan = storage::save(&info);
                self.replace(i, info);
                Some((id.to_owned(), plan))
            },
            None => None,
        }
    }

    /// Records that the process `pid` has exited with `exit_code`, and says how
    /// this is saved. The container that it belonged to, if there is one, keeps
    /// its entry and gives up its address.
    pub fn on_container_exit(&mut self, pid: u32, exit_code: i32) -> (found: Option<SavePlan>)
        requires
            old(self).wf(),
        ensures
            final(self).wf(),
            match found {
                Some(plan) => exists|id: Seq<char>| #[trigger]
                    old(self)@.runs(id, pid) && final(self)@ == old(self)@.after_exit(
                        old(self)@.containers[id],
                        exit_code as int,
                    ) && plan@ == storage::save_plan(
                        exited(old(self)@.containers[id], exit_code as int),
                    ),
                None => final(self)@ == old(self)@ && forall|id: Seq<char>|
                    !old(self)@.runs(id, pid),
            },
    {
        broadcast use vstd::std_specs::hash::group_hash_axioms;

        let ghost entries = self.containers.deep_view();
        proof {
            by_id_finds(entries);
        }
        let mut i: usize = 0;
        while i < self.containers.len() && self.containers[i].pid != Some(pid)
            invariant
                i <= self.containers.len(),
                entries == self.containers.deep_view(),
                forall|k: int| 0 <= k < i ==> (#[trigger] entries[k]).pid != Some(pid),
            decreases self.containers.len() - i,
        {
            assert(entries[i as int] == self.containers[i as int]@);
            i += 1;
        }
        if i == self.containers.len() {
            assert forall|id: Seq<char>| !self@.runs(id, pid) by {
                if by_id(entries).contains_key(id) {
                    let k = choose|k: int| 0 <= k < entries.len() && (#[trigger] entries[k]).id == id;
                    assert(by_id(entries)[id] == entries[k]);
                }
            }
            return None;
        }
        let mut info = self.containers[i].clone();
        assert(entries[i as int] == self.containers[i as int]@);
        assert(self@.runs(info.id@, pid));
        let mut state = text::join("Exited(", text::signed_decimal_text(exit_code).as_str());
        state.append(")");
        info.state = state;
        info.pid = None;
        assert(info@ =~= exited(entries[i as int], exit_code as int));
        let plan = storage::save(&info);
        let ip = text::copy_word(&info.ip);
        self.replace(i, info);
        if let Some(ip) = ip {
            self.free_ip(ip.as_str());
        }
        Some(plan)
    }

    /// The signal to send so that it reaches a container. There is none to
    /// send if the container is unknown or does not run.
    pub fn kill_container(&self, id: &str, signal: Signal) -> (kill: Option<Kill>)
        requires
            self.wf(),
        ensures
            match kill {
                Some(kill) => exists|pid: u32| #[trigger]
                    self@.runs(id@, pid) && kill == (Kill { pid: pid as i32, signal }),
                None => forall|pid: u32| !self@.runs(id@, pid),
            },
    {
        match self.get(id) {
            Some(info) => match info.pid {
                Some(pid) => {
                    assert(self@.runs(id@, pid));
                    Some(Kill { pid: pid as i32, signal })
                },
                None => None,
            },
            None => None,
        }
    }

    /// Takes the lowest free address, if there is one.
    pub fn allocate_ip(&mut self) -> (ip: Option<String>)
        requires
            old(self).wf(),
        ensures
            final(self).wf(),
            match first_free(old(self)@.pool) {
                Some(n) => ip.deep_view() == Some(address(n)) && final(self)@ == (ManagerView {
                    pool: old(self)@.pool.insert(n),
                    ..old(self)@
                }),
                None => ip is None && final(self)@ == old(self)@,
            },
    {
        broadcast use vstd::std_specs::hash::group_hash_axioms;

        let mut n: u8 = 2;
        while n <= 254
            invariant
                2 <= n <= 255,
                self.wf(),
                *self == *old(self),
                forall|k: u8| #[trigger] assignable(k) && k < n ==> self@.pool.contains(k),
            decreases 255 - n,
        {
            broadcast use vstd::std_specs::hash::group_hash_axioms;

            if !self.ip_pool.contains(&n) {
                self.ip_pool.insert(n);
                proof {
                    laws::first_free_is_lowest(old(self)@.pool, n);
                }
                return Some(text::join("10.0.0.", text::decimal_text(n as u64).as_str()));
            }
            n += 1;
        }
        proof {
            laws::none_free_when_all_taken(self@.pool);
        }
        None
    }

    /// Gives an address back.
    pub fn free_ip(&mut self, ip: &str)
        requires
            old(self).wf(),
        ensures
            final(self).wf(),
            final(self)@ == old(self)@.freed(ip@),
    {
        broadcast use vstd::std_specs::hash::group_hash_axioms;

        if let Some(n) = host_octet(ip) {
            self.ip_pool.remove(&n);
        }
    }

    /// Whether a container may be removed: it must be known, and must not run.
    pub fn check_removable(&self, id: &str) -> (verdict: Result<(), AppError>)
        requires
            self.wf(),
        ensures
            match verdict {
                Ok(()) => removable(self@, id@) is Ok,
                Err(e) => removable(self@, id@) == Err::<(), AppErrorView>(e@),
            },
    {
        match self.get(id) {
            None => Err(AppError::NotFound(id.to_owned())),
            Some(info) => if info.pid.is_some() {
                Err(AppError::StillRunning(id.to_owned()))
            } else {
                Ok(())
            },
        }
    }

    /// Forgets a container once what it left behind has been cleaned up. If
    /// that failed, the container stays.
    pub fn remove(&mut self, id: &str, cleaned: Result<(), AppError>) -> (removed: Result<
        (),
        AppError,
    >)
        requires
            old(self).wf(),
        ensures
            final(self).wf(),
            removed == cleaned,
            final(self)@ == (if cleaned is Ok {
                old(self)@.without(id@)
            } else {
                old(self)@
            }),
    {
        if cleaned.is_ok() {
            match self.position(id) {
                Some(i) => {
                    let ghost before = self.containers.deep_view();
                    proof {
                        lemma_by_id_remove(before, i as int);
                    }
                    self.containers.remove(i);
                    assert(self.containers.deep_view() =~= before.remove(i as int));
                },
                None => {
                    assert(self@.containers =~= self@.containers.remove(id@));
                },
            }
        }
        cleaned
    }
}

/// Whether, and why not, a container may be removed.
pub open spec fn removable(manager: ManagerView, id: Seq<char>) -> Result<(), AppErrorView> {
    if !manager.containers.contains_key(id) {
        Err(AppErrorView::NotFound(id))
    } else if manager.containers[id].pid is Some {
        Err(AppErrorView::StillRunning(id))
    } else {
        Ok(())
    }
}

} // verus!
