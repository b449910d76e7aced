//! The metadata of the containers, which outlives the daemon.

use crate::container::{ContainerInfo, InfoView};
use crate::error::{AppError, AppErrorView};
use crate::script::{Op, OpView};
use crate::{container, text};
use vstd::prelude::*;
use vstd::std_specs::convert::FromSpecImpl;

verus! {

/// Where the metadata is kept, one file for each container.
pub const STORAGE_DIR: &'static str = "/var/lib/cb/containers";

/// What is kept of a container.
#[derive(Debug)]
pub struct ContainerMetadata {
    pub id: String,
    pub command: Vec<String>,
    pub state: String,
    pub memory_limit: String,
    pub pid: Option<u32>,
    pub ip: Option<String>,
}

impl View for ContainerMetadata {
    type V = InfoView;

    open spec fn view(&self) -> InfoView {
        InfoView {
            id: self.id@,
            command: self.command.deep_view(),
            state: self.state@,
            memory_limit: self.memory_limit@,
            pid: self.pid,
            ip: self.ip.deep_view(),
        }
    }
}

impl FromSpecImpl<&ContainerInfo> for ContainerMetadata {
    open spec fn obeys_from_spec() -> bool {
        false
    }

    open spec fn from_spec(c: &ContainerInfo) -> Self {
        arbitrary()
    }
}

impl From<&ContainerInfo> for ContainerMetadata {
    fn from(c: &ContainerInfo) -> (metadata: Self)
        ensures
            metadata@ == c@,
    {
        ContainerMetadata {
            id: c.id.clone(),
            command: text::copy_words(&c.command),
            state: c.state.clone(),
            memory_limit: c.memory_limit.clone(),
            pid: c.pid,
            ip: text::copy_word(&c.ip),
        }
    }
}

impl FromSpecImpl<ContainerMetadata> for ContainerInfo {
    open spec fn obeys_from_spec() -> bool {
        false
    }

    open spec fn from_spec(c: ContainerMetadata) -> Self {
        arbitrary()
    }
}

impl From<ContainerMetadata> for ContainerInfo {
    fn from(c: ContainerMetadata) -> (info: Self)
        ensures
            info@ == c@,
    {
        ContainerInfo {
            id: c.id,
            command: c.command,
            state: c.state,
            memory_limit: c.memory_limit,
            pid: c.pid,
            ip: c.ip,
        }
    }
}

/// The name of the file that holds the metadata of a container.
pub open spec fn file_name(id: Seq<char>) -> Seq<char> {
    id + ".json"@
}

/// Where the metadata of a container stands.
pub open spec fn stored_path(id: Seq<char>) -> Seq<char> {
    text::joined_path(STORAGE_DIR@, file_name(id))
}

/// Where the metadata of a container stands.
pub fn file_path(id: &str) -> (path: String)
    ensures
        path@ == stored_path(id@),
{
    text::join_path(STORAGE_DIR, text::join(id, ".json").as_str())
}

/// How metadata is written: in the directory `dir`, which is made if it is not
/// there, the file `path` comes to hold `metadata`.
pub struct SavePlan {
    pub dir: String,
    pub path: String,
    pub metadata: ContainerMetadata,
}

#[verifier::ext_equal]
pub struct SaveView {
    pub dir: Seq<char>,
    pub path: Seq<char>,
    pub metadata: InfoView,
}

impl View for SavePlan {
    type V = SaveView;

    open spec fn view(&self) -> SaveView {
        SaveView { dir: self.dir@, path: self.path@, metadata: self.metadata@ }
    }
}

/// How what is known of a container is written.
pub open spec fn save_plan(info: InfoView) -> SaveView {
    SaveView { dir: STORAGE_DIR@, path: stored_path(info.id), metadata: info }
}

/// How what is known of a container is written.
pub fn save(info: &ContainerInfo) -> (plan: SavePlan)
    ensures
        plan@ == save_plan(info@),
{
    SavePlan {
        dir: STORAGE_DIR.to_owned(),
        path: file_path(info.id.as_str()),
        metadata: ContainerMetadata::from(info),
    }
}

/// Removes the metadata of a container.
pub fn delete(id: &str) -> (op: Op)
    ensures
        op@ == (OpView::RemoveFile { path: stored_path(id@) }),
{
    Op::RemoveFile { path: file_path(id) }
}

/// Whether a file may hold metadata: its name has something before the
/// extension.
pub open spec fn is_metadata_name(name: Seq<char>) -> bool {
    name.len() > 5 && name.skip(name.len() - 5) == ".json"@
}

/// Whether a file may hold metadata.
pub fn is_metadata_file(name: &str) -> (may: bool)
    ensures
        may == is_metadata_name(name@),
{
    let n: usize = name.unicode_len();
    if n <= 5 {
        return false;
    }
    let extension = name.substring_char(n - 5, n);
    assert(extension@ =~= name@.skip(name@.len() - 5));
    text::same_text(extension, ".json")
}

/// A file of the directory: its name, and the metadata that it was read as.
/// There is none if the contents are something else.
pub struct StoredFile {
    pub name: String,
    pub content: Result<Option<ContainerMetadata>, AppError>,
}

#[verifier::ext_equal]
pub struct StoredView {
    pub name: Seq<char>,
    pub content: Result<Option<InfoView>, AppErrorView>,
}

impl View for StoredFile {
    type V = StoredView;

    open spec fn view(&self) -> StoredView {
        StoredView {
            name: self.name@,
            content: match self.content {
                Ok(Some(metadata)) => Ok(Some(metadata@)),
                Ok(None) => Ok(None),
                Err(error) => Err(error@),
            },
        }
    }
}

impl DeepView for StoredFile {
    type V = StoredView;

    open spec fn deep_view(&self) -> StoredView {
        self@
    }
}

/// The containers that the files of the directory tell of, in their order. A
/// file that may not hold metadata, and one that holds something else, is
/// passed over; the first one that cannot be read ends it.
pub open spec fn loaded(files: Seq<StoredView>) -> Result<Seq<InfoView>, AppErrorView>
    decreases files.len(),
{
    if files.len() == 0 {
        Ok(seq![])
    } else {
        let last = files.last();
        match loaded(files.drop_last()) {
            Err(error) => Err(error),
            Ok(list) => if !is_metadata_name(last.name) {
                Ok(list)
            } else {
                match last.content {
                    Ok(Some(info)) => Ok(list.push(info)),
                    Ok(None) => Ok(list),
                    Err(error) => Err(error),
                }
            },
        }
    }
}

proof fn lemma_loaded_prefix(files: Seq<StoredView>, n: int)
    requires
        0 <= n <= files.len(),
        loaded(files.take(n)) is Err,
    ensures
        loaded(files) == loaded(files.take(n)),
    decreases files.len(),
{
    if n == files.len() {
        assert(files.take(n) =~= files);
    } else {
        assert(files.drop_last().take(n) =~= files.take(n));
        lemma_loaded_prefix(files.drop_last(), n);
    }
}

/// The containers that the files of the directory tell of.
pub fn load_all(files: Vec<StoredFile>) -> (list: Result<Vec<ContainerInfo>, AppError>)
    ensures
        match list {
            Ok(list) => loaded(files.deep_view()) == Ok::<Seq<InfoView>, AppErrorView>(
                list.deep_view(),
            ),
            Err(error) => loaded(files.deep_view()) == Err::<Seq<InfoView>, AppErrorView>(
                error@,
            ),
        },
{
    let ghost all = files.deep_view();
    let mut result: Vec<ContainerInfo> = Vec::new();
    assert(all.take(0) =~= seq![]);
    assert(result.deep_view() =~= seq![]);
    for file in it: files
        invariant
            all == files.deep_view(),
            it.seq() == files@,
            loaded(all.take(it.index())) == Ok::<Seq<InfoView>, AppErrorView>(
                result.deep_view(),
            ),
    {
        let ghost i = it.index();
        let ghost next = all.take(i + 1);
        assert(file == files@[i]);
        assert(next.drop_last() =~= all.take(i));
        assert(next.last() == file@);
        if is_metadata_file(file.name.as_str()) {
            match file.content {
                Ok(Some(metadata)) => {
                    let ghost before = result.deep_view();
                    let info = ContainerInfo::from(metadata);
                    let ghost entry = info@;
                    result.push(info);
                    assert(result.deep_view() =~= before.push(entry));
                },
                Ok(None) => {},
                Err(error) => {
                    proof {
                        lemma_loaded_prefix(all, i + 1);
                    }
                    return Err(error);
                },
            }
        }
    }
    assert(all.take(all.len() as int) =~= all);
    Ok(result)
}

/// The file that what is known of a container is written to.
pub open spec fn stored(info: InfoView) -> StoredView {
    StoredView { name: file_name(info.id), content: Ok(Some(info)) }
}

/// The files that what is known of containers is written to.
pub open spec fn stored_all(entries: Seq<InfoView>) -> Seq<StoredView> {
    entries.map_values(|info: InfoView| stored(info))
}

/// What is written of containers is what is read back of them.
pub proof fn saved_is_loaded(entries: Seq<InfoView>)
    requires
        forall|i: int| 0 <= i < entries.len() ==> (#[trigger] entries[i]).id.len() > 0,
    ensures
        loaded(stored_all(entries)) == Ok::<Seq<InfoView>, AppErrorView>(entries),
    decreases entries.len(),
{
    let files = stored_all(entries);
    if entries.len() > 0 {
        let init = entries.drop_last();
        assert forall|i: int| 0 <= i < init.len() implies (#[trigger] init[i]).id.len() > 0 by {
            assert(init[i] == entries[i]);
        }
        saved_is_loaded(init);
        assert(files.drop_last() =~= stored_all(init));
        reveal_strlit(".json");
        let last = entries.last();
        assert(entries[entries.len() - 1].id.len() > 0);
        let name = file_name(last.id);
        assert(name.skip(name.len() - 5) =~= ".json"@);
        assert(init.push(last) =~= entries);
    } else {
        assert(entries =~= seq![]);
    }
}

/// A daemon that starts with what another one has saved of its containers, in
/// whatever order the files come, has the same containers.
pub proof fn restart_restores(
    entries: Seq<InfoView>,
    containers: Map<Seq<char>, InfoView>,
)
    requires
        container::lists(entries, containers),
        forall|id: Seq<char>| #[trigger]
            containers.contains_key(id) ==> containers[id].id == id && id.len() > 0,
    ensures
        loaded(stored_all(entries)) == Ok::<Seq<InfoView>, AppErrorView>(entries),
        container::by_id(entries) == containers,
{
    container::by_id_finds(entries);
    assert forall|i: int| 0 <= i < entries.len() implies (#[trigger] entries[i]).id.len() > 0 by {
        assert(containers.contains_key(entries[i].id));
    }
    saved_is_loaded(entries);
}

/// A file that is not named like metadata, and one that holds something else,
/// makes no difference.
pub proof fn other_files_are_passed_over(
    before: Seq<StoredView>,
    other: StoredView,
    after: Seq<StoredView>,
)
    requires
        !is_metadata_name(other.name) || other.content == Ok::<Option<InfoView>, AppErrorView>(
            None,
        ),
    ensures
        loaded(before.push(other) + after) == loaded(before + after),
    decreases after.len(),
{
    let with = before.push(other) + after;
    let without = before + after;
    if after.len() == 0 {
        assert(with =~= before.push(other));
        assert(without =~= before);
        assert(with.drop_last() =~= before);
    } else {
        let init = after.drop_last();
        other_files_are_passed_over(before, other, init);
        assert(with.drop_last() =~= before.push(other) + init);
        assert(without.drop_last() =~= before + init);
        assert(with.last() == after.last());
        assert(without.last() == after.last());
    }
}

/// Containers whose identifiers do not start with a slash, and differ, are
/// kept in different files of the directory.
pub proof fn files_differ(a: Seq<char>, b: Seq<char>)
    requires
        a.len() > 0 ==> a[0] != '/',
        b.len() > 0 ==> b[0] != '/',
    ensures
        stored_path(a) == STORAGE_DIR@ + "/"@ + a + ".json"@,
        stored_path(a) == stored_path(b) ==> a == b,
{
    reveal_strlit(".json");
    reveal_strlit("/");
    reveal_strlit("/var/lib/cb/containers");
    let dir = STORAGE_DIR@ + "/"@;
    assert(file_name(a)[0] != '/');
    assert(file_name(b)[0] != '/');
    assert(stored_path(a) =~= dir + a + ".json"@);
    assert(stored_path(b) =~= dir + b + ".json"@);
    if stored_path(a) == stored_path(b) {
        let n = dir.len() as int;
        let path = stored_path(a);
        assert(a =~= path.subrange(n, path.len() - 5));
        assert(b =~= path.subrange(n, path.len() - 5));
    }
}

/// What is known of a container is saved as it is, in a file of its own that is
/// named by its identifier.
pub proof fn record_is_saved_as_it_is(info: InfoView)
    ensures
        ({
            let plan = save_plan(info);
            &&& plan.dir == "/var/lib/cb/containers"@
            &&& plan.path == text::joined_path("/var/lib/cb/containers"@, info.id + ".json"@)
            &&& plan.path == stored_path(info.id)
            &&& plan.metadata == info
        }),
{
}

/// Files that may hold metadata are those with something in front of the
/// extension.
pub proof fn metadata_is_told_by_the_extension(stem: Seq<char>, name: Seq<char>)
    ensures
        is_metadata_name(stem + ".json"@) <==> stem.len() > 0,
        is_metadata_name(name) ==> name == name.take(name.len() - 5) + ".json"@,
        !is_metadata_name(name) ==> name.len() <= 5 || name != name.take(name.len() - 5)
            + ".json"@,
{
    reveal_strlit(".json");
    let full = stem + ".json"@;
    assert(full.skip(full.len() - 5) =~= ".json"@);
    if is_metadata_name(name) {
        assert(name =~= name.take(name.len() - 5) + name.skip(name.len() - 5));
    }
    if name.len() > 5 && name == name.take(name.len() - 5) + ".json"@ {
        assert(name.skip(name.len() - 5) =~= ".json"@);
    }
}

/// Nothing is read of no files. One file more adds its record, last, if it is
/// one of metadata and holds a record; nothing if it is not, or holds something
/// else. A file of metadata that cannot be read makes the reading fail, and the
/// first such failure stands.
pub proof fn file_adds_its_record(files: Seq<StoredView>, file: StoredView)
    ensures
        loaded(seq![]) matches Ok(list) && list.len() == 0,
        match loaded(files) {
            Err(e) => loaded(files.push(file)) == Err::<Seq<InfoView>, AppErrorView>(e),
            Ok(list) => {
                let may = is_metadata_name(file.name);
                &&& !may ==> loaded(files.push(file)) == Ok::<Seq<InfoView>, AppErrorView>(list)
                &&& may ==> match file.content {
                    Ok(Some(info)) => loaded(files.push(file)) == Ok::<
                        Seq<InfoView>,
                        AppErrorView,
                    >(list.push(info)),
                    Ok(None) => loaded(files.push(file)) == Ok::<Seq<InfoView>, AppErrorView>(
                        list,
                    ),
                    Err(e) => loaded(files.push(file)) == Err::<Seq<InfoView>, AppErrorView>(e),
                }
            },
        },
{
    assert(files.push(file).drop_last() =~= files);
}

/// What is stored is all of what it holds.
pub proof fn stored_is_seen_whole(metadata: ContainerMetadata, plan: SavePlan, file: StoredFile)
    ensures
        metadata@.id == metadata.id@,
        metadata@.command == metadata.command.deep_view(),
        metadata@.state == metadata.state@,
        metadata@.memory_limit == metadata.memory_limit@,
        metadata@.pid == metadata.pid,
        match metadata.ip {
            Some(ip) => metadata@.ip == Some(ip@),
            None => metadata@.ip is None,
        },
        plan@.dir == plan.dir@,
        plan@.path == plan.path@,
        plan@.metadata == plan.metadata@,
        file@.name == file.name@,
        match file.content {
            Ok(Some(metadata)) => file@.content == Ok::<Option<InfoView>, AppErrorView>(
                Some(metadata@),
            ),
            Ok(None) => file@.content == Ok::<Option<InfoView>, AppErrorView>(None),
            Err(error) => file@.content == Err::<Option<InfoView>, AppErrorView>(error@),
        },
        file.deep_view() == file@,
{
}

} // verus!
