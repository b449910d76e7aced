//! The start of a container from its plan to its process: in what order the
//! plan is carried out, and what is undone when that fails.

use crate::error::{AppError, AppErrorView};
use crate::sandbox::{ConfigView, LaunchPlan, Pipes, SandboxConfig};
use crate::script::{Op, OpView, Outcome, OutcomeView};
use crate::{sandbox, script};
use vstd::prelude::*;

verus! {

/// How far a start has come.
pub enum Stage {
    /// The operation at `at` of the preparation is being carried out.
    Preparing { at: usize },
    /// The pipes to the container are being made.
    MakingPipes,
    /// The process is being made.
    Forking { pipes: Pipes },
    /// The process is there, and the operation at `at` of what its parent does
    /// is being carried out.
    Attaching { pid: u32, pipes: Pipes, script: Vec<Op>, at: usize },
    /// It has succeeded or failed.
    Ended,
}

#[verifier::ext_equal]
pub enum StageView {
    Preparing { at: nat },
    MakingPipes,
    Forking { pipes: Pipes },
    Attaching { pid: u32, pipes: Pipes, script: Seq<OpView>, at: nat },
    Ended,
}

impl View for Stage {
    type V = StageView;

    open spec fn view(&self) -> StageView {
        match self {
            Stage::Preparing { at } => StageView::Preparing { at: *at as nat },
            Stage::MakingPipes => StageView::MakingPipes,
            Stage::Forking { pipes } => StageView::Forking { pipes: *pipes },
            Stage::Attaching { pid, pipes, script, at } => StageView::Attaching {
                pid: *pid,
                pipes: *pipes,
                script: script.deep_view(),
                at: *at as nat,
            },
            Stage::Ended => StageView::Ended,
        }
    }
}

/// What comes of what a start asks for.
pub enum StartEvent {
    /// Of an operation.
    Carried { outcome: Outcome },
    /// Of the pipes.
    PipesMade { pipes: Result<Pipes, AppError> },
    /// Of the process, as its parent sees it.
    Forked { pid: Result<u32, AppError> },
}

#[verifier::ext_equal]
pub enum StartEventView {
    Carried { outcome: OutcomeView },
    PipesMade { pipes: Result<Pipes, AppErrorView> },
    Forked { pid: Result<u32, AppErrorView> },
}

impl View for StartEvent {
    type V = StartEventView;

    open spec fn view(&self) -> StartEventView {
        match self {
            StartEvent::Carried { outcome } => StartEventView::Carried { outcome: outcome@ },
            StartEvent::PipesMade { pipes } => StartEventView::PipesMade {
                pipes: match pipes {
                    Ok(pipes) => Ok(*pipes),
                    Err(error) => Err(error@),
                },
            },
            StartEvent::Forked { pid } => StartEventView::Forked {
                pid: match pid {
                    Ok(pid) => Ok(*pid),
                    Err(error) => Err(error@),
                },
            },
        }
    }
}

/// What a start asks for.
pub enum StartAction {
    /// Carry out the operation that the start has come to.
    Perform,
    MakePipes,
    /// Make the process.
    Fork,
    /// It has succeeded: the container is this process.
    Finish { pid: u32 },
    /// It has failed with this error. Undo what `undo` says.
    Fail { undo: Vec<Op>, error: AppError },
    /// It cannot go on, because the memory limit cannot be read. Undo what
    /// `undo` says.
    Unreadable { undo: Vec<Op> },
    /// Nothing: what came was not asked for.
    Nothing,
}

#[verifier::ext_equal]
pub enum StartActionView {
    Perform,
    MakePipes,
    Fork,
    Finish { pid: u32 },
    Fail { undo: Seq<OpView>, error: AppErrorView },
    Unreadable { undo: Seq<OpView> },
    Nothing,
}

impl View for StartAction {
    type V = StartActionView;

    open spec fn view(&self) -> StartActionView {
        match self {
            StartAction::Perform => StartActionView::Perform,
            StartAction::MakePipes => StartActionView::MakePipes,
            StartAction::Fork => StartActionView::Fork,
            StartAction::Finish { pid } => StartActionView::Finish { pid: *pid },
            StartAction::Fail { undo, error } => StartActionView::Fail {
                undo: undo.deep_view(),
                error: error@,
            },
            StartAction::Unreadable { undo } => StartActionView::Unreadable {
                undo: undo.deep_view(),
            },
            StartAction::Nothing => StartActionView::Nothing,
        }
    }
}

/// What is undone when a start fails after `reached` operations of its
/// preparation: the control group, if it has been made.
pub open spec fn undoing(cfg: ConfigView, reached: nat) -> Seq<OpView> {
    if reached >= sandbox::cgroup_made_at(cfg) {
        seq![OpView::RemoveDir { path: sandbox::cgroup::cgroup_path(cfg.container_id) }]
    } else {
        seq![]
    }
}

pub open spec fn failed(cfg: ConfigView, reached: nat, error: AppErrorView) -> (
    StageView,
    StartActionView,
) {
    (StageView::Ended, StartActionView::Fail { undo: undoing(cfg, reached), error })
}

/// Everything that can fail once the preparation is over undoes all of it that
/// has to be undone.
pub open spec fn failed_late(cfg: ConfigView, error: AppErrorView) -> (
    StageView,
    StartActionView,
) {
    failed(cfg, sandbox::prepare_script(cfg).len(), error)
}

/// What a start asks for first.
pub open spec fn start_begun() -> (StageView, StartActionView) {
    (StageView::Preparing { at: 0 }, StartActionView::Perform)
}

/// How far a start has come after an event, and what it asks for next.
pub open spec fn start_step(cfg: ConfigView, stage: StageView, event: StartEventView) -> (
    StageView,
    StartActionView,
) {
    let prepare = sandbox::prepare_script(cfg);
    match (stage, event) {
        (StageView::Preparing { at }, StartEventView::Carried { outcome }) => match script::next(
            prepare[at as int],
            at,
            outcome,
        ) {
            Err(error) => failed(cfg, at, error),
            Ok(to) => if to < prepare.len() {
                (StageView::Preparing { at: to }, StartActionView::Perform)
            } else if sandbox::cgroup::memory_limit_of(cfg.memory_limit) is None {
                (
                    StageView::Ended,
                    StartActionView::Unreadable { undo: undoing(cfg, prepare.len()) },
                )
            } else {
                (StageView::MakingPipes, StartActionView::MakePipes)
            },
        },
        (StageView::MakingPipes, StartEventView::PipesMade { pipes }) => match pipes {
            Ok(pipes) => (StageView::Forking { pipes }, StartActionView::Fork),
            Err(error) => failed_late(cfg, error),
        },
        (StageView::Forking { pipes }, StartEventView::Forked { pid }) => match pid {
            Ok(pid) => (
                StageView::Attaching {
                    pid,
                    pipes,
                    script: sandbox::attach_script(cfg, pid, pipes),
                    at: 0,
                },
                StartActionView::Perform,
            ),
            Err(error) => failed_late(cfg, error),
        },
        (
            StageView::Attaching { pid, pipes, script, at },
            StartEventView::Carried { outcome },
        ) => match script::next(script[at as int], at, outcome) {
            Err(error) => failed_late(cfg, error),
            Ok(to) => if to < script.len() {
                (StageView::Attaching { pid, pipes, script, at: to }, StartActionView::Perform)
            } else {
                (StageView::Ended, StartActionView::Finish { pid })
            },
        },
        _ => (stage, StartActionView::Nothing),
    }
}

/// What holds of a start, however far it has come: it is at an operation of the
/// list that it carries out, and that list is the one of `cfg`.
pub open spec fn stage_in_order(cfg: ConfigView, stage: StageView) -> bool {
    match stage {
        StageView::Preparing { at } => at < sandbox::prepare_script(cfg).len(),
        StageView::Attaching { pid, pipes, script, at } => at < script.len() && script
            == sandbox::attach_script(cfg, pid, pipes) && script::well_formed(script),
        _ => true,
    }
}

impl Stage {
    /// The operation that the start has come to, if it is carrying out a list.
    pub fn operation<'a>(&'a self, plan: &'a LaunchPlan) -> (op: Option<&'a Op>)
        ensures
            match self@ {
                StageView::Preparing { at } => if at < plan.prepare.len() {
                    op is Some && op->0@ == plan.prepare.deep_view()[at as int]
                } else {
                    op is None
                },
                StageView::Attaching { script, at, .. } => if at < script.len() {
                    op is Some && op->0@ == script[at as int]
                } else {
                    op is None
                },
                _ => op is None,
            },
    {
        match self {
            Stage::Preparing { at } => if *at < plan.prepare.len() {
                Some(&plan.prepare[*at])
            } else {
                None
            },
            Stage::Attaching { script, at, .. } => if *at < script.len() {
                Some(&script[*at])
            } else {
                None
            },
            _ => None,
        }
    }
}

/// What a start asks for first: that the first operation of its preparation be
/// carried out.
pub fn begin_start() -> (begun: (Stage, StartAction))
    ensures
        (begun.0@, begun.1@) == start_begun(),
        forall|cfg: ConfigView| #[trigger] stage_in_order(cfg, begun.0@),
{
    (Stage::Preparing { at: 0 }, StartAction::Perform)
}

fn fail(plan: &LaunchPlan, cfg: &SandboxConfig, reached: usize, error: AppError) -> (ended: (
    Stage,
    StartAction,
))
    requires
        plan.is_for(cfg@),
    ensures
        (ended.0@, ended.1@) == failed(cfg@, reached as nat, error@),
{
    (Stage::Ended, StartAction::Fail { undo: plan.abandon(reached), error })
}

/// Takes a start on by what came of what it asked for: says how far it has come
/// now, and what it asks for next.
pub fn continue_start(plan: &LaunchPlan, cfg: &SandboxConfig, stage: Stage, event: StartEvent) -> (
next: (Stage, StartAction))
    requires
        plan.is_for(cfg@),
        stage_in_order(cfg@, stage@),
    ensures
        (next.0@, next.1@) == start_step(cfg@, stage@, event@),
        stage_in_order(cfg@, next.0@),
{
    let prepared: usize = plan.prepare.len();
    assert(prepared == sandbox::prepare_script(cfg@).len());
    match (stage, event) {
        (Stage::Preparing { at }, StartEvent::Carried { outcome }) => {
            proof {
                sandbox::laws::preparation_is_well_formed(cfg@);
                assert(plan.prepare.deep_view()[at as int] == plan.prepare[at as int]@);
            }
            match script::advance(&plan.prepare, at, outcome) {
                Err(error) => fail(plan, cfg, at, error),
                Ok(to) => if to < prepared {
                    (Stage::Preparing { at: to }, StartAction::Perform)
                } else if plan.memory.is_none() {
                    (Stage::Ended, StartAction::Unreadable { undo: plan.abandon(prepared) })
                } else {
                    (Stage::MakingPipes, StartAction::MakePipes)
                },
            }
        },
        (Stage::MakingPipes, StartEvent::PipesMade { pipes }) => match pipes {
            Ok(pipes) => (Stage::Forking { pipes }, StartAction::Fork),
            Err(error) => fail(plan, cfg, prepared, error),
        },
        (Stage::Forking { pipes }, StartEvent::Forked { pid }) => match pid {
            Ok(pid) => {
                let script = plan.attach(cfg, pid, &pipes);
                (Stage::Attaching { pid, pipes, script, at: 0 }, StartAction::Perform)
            },
            Err(error) => fail(plan, cfg, prepared, error),
        },
        (Stage::Attaching { pid, pipes, script, at }, StartEvent::Carried { outcome }) => {
            assert(script.deep_view()[at as int] == script[at as int]@);
            match script::advance(&script, at, outcome) {
                Err(error) => fail(plan, cfg, prepared, error),
                Ok(to) => if to < script.len() {
                    (Stage::Attaching { pid, pipes, script, at: to }, StartAction::Perform)
                } else {
                    (Stage::Ended, StartAction::Finish { pid })
                },
            }
        },
        (stage, _) => (stage, StartAction::Nothing),
    }
}

} // verus!
