//! The file system of a container: a writable layer of its own over a shared
//! base.

use crate::script::{Op, OpView};
use crate::{script, text};
use vstd::prelude::*;

verus! {

/// The file system below those of all containers.
pub const BASE_ROOTFS: &'static str = "/var/lib/cb/rootfs";

/// Where the layers of the containers stand.
pub const CONTAINERS_DIR: &'static str = "/run/cb/containers";

/// The file system of a container.
pub struct ContainerFs {
    /// What the container sees.
    pub merged: String,
    /// What the container has written.
    pub upper: String,
    /// What the kernel works in.
    pub work: String,
}

pub open spec fn base_path(container_id: Seq<char>) -> Seq<char> {
    text::joined_path(CONTAINERS_DIR@, container_id)
}

pub open spec fn merged_path(container_id: Seq<char>) -> Seq<char> {
    text::joined_path(base_path(container_id), "merged"@)
}

pub open spec fn upper_path(container_id: Seq<char>) -> Seq<char> {
    text::joined_path(base_path(container_id), "upper"@)
}

pub open spec fn work_path(container_id: Seq<char>) -> Seq<char> {
    text::joined_path(base_path(container_id), "work"@)
}

/// The layers of a container, as the kernel takes them.
pub open spec fn overlay_options(container_id: Seq<char>) -> Seq<char> {
    "lowerdir="@ + BASE_ROOTFS@ + ",upperdir="@ + upper_path(container_id) + ",workdir="@
        + work_path(container_id)
}

/// Makes the directories of a container and mounts its file system.
pub open spec fn fs_script(container_id: Seq<char>) -> Seq<OpView> {
    seq![
        OpView::CreateDirAll { path: upper_path(container_id) },
        OpView::CreateDirAll { path: work_path(container_id) },
        OpView::CreateDirAll { path: merged_path(container_id) },
        OpView::CreateDirAll { path: text::joined_path(merged_path(container_id), "proc"@) },
        OpView::CreateDirAll { path: text::joined_path(merged_path(container_id), "dev"@) },
        OpView::MountOverlay {
            target: merged_path(container_id),
            options: overlay_options(container_id),
        },
    ]
}

/// Unmounts the file system of a container and removes its directories.
pub open spec fn fs_removal(container_id: Seq<char>) -> Seq<OpView> {
    seq![
        OpView::Detach { target: merged_path(container_id) },
        OpView::RemoveDirAll { path: base_path(container_id) },
    ]
}

impl ContainerFs {
    /// The file system of a container, and what makes it.
    pub fn setup(container_id: &str) -> (made: (Self, Vec<Op>))
        ensures
            made.0.merged@ == merged_path(container_id@),
            made.0.upper@ == upper_path(container_id@),
            made.0.work@ == work_path(container_id@),
            made.1.deep_view() == fs_script(container_id@),
            script::well_formed(made.1.deep_view()),
    {
        let base = text::join_path(CONTAINERS_DIR, container_id);
        let upper = text::join_path(base.as_str(), "upper");
        let work = text::join_path(base.as_str(), "work");
        let merged = text::join_path(base.as_str(), "merged");
        let mut options = text::join("lowerdir=", BASE_ROOTFS);
        options.append(",upperdir=");
        options.append(upper.as_str());
        options.append(",workdir=");
        options.append(work.as_str());
        let script = vec![
            Op::CreateDirAll { path: upper.clone() },
            Op::CreateDirAll { path: work.clone() },
            Op::CreateDirAll { path: merged.clone() },
            Op::CreateDirAll { path: text::join_path(merged.as_str(), "proc") },
            Op::CreateDirAll { path: text::join_path(merged.as_str(), "dev") },
            Op::MountOverlay { target: merged.clone(), options },
        ];
        assert(script.deep_view() =~= seq![
            script[0]@,
            script[1]@,
            script[2]@,
            script[3]@,
            script[4]@,
            script[5]@,
        ]);
        (ContainerFs { merged, upper, work }, script)
    }

    /// Unmounts the file system of a container and removes its directories.
    pub fn remove(container_id: &str) -> (script: Vec<Op>)
        ensures
            script.deep_view() == fs_removal(container_id@),
            script::well_formed(script.deep_view()),
    {
        let base = text::join_path(CONTAINERS_DIR, container_id);
        let merged = text::join_path(base.as_str(), "merged");
        let script = vec![Op::Detach { target: merged }, Op::RemoveDirAll { path: base }];
        assert(script.deep_view() =~= seq![script[0]@, script[1]@]);
        script
    }
}

} // verus!
