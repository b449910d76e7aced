use capsule_box::error::AppError;
use capsule_box::sandbox::start::{begin_start, continue_start, Stage, StartAction, StartEvent};
use capsule_box::sandbox::{start_container, LaunchPlan, Pipes, SandboxConfig};
use capsule_box::script::{Op, Outcome};

fn config(memory_limit: &str) -> SandboxConfig {
    SandboxConfig {
        container_id: "000012ab34cd".to_string(),
        command: vec!["ls".to_string()],
        memory_limit: memory_limit.to_string(),
        hostname: "cb-000012ab".to_string(),
        ip: "10.0.0.7".to_string(),
        stdio: None,
    }
}

fn pipes() -> Pipes {
    Pipes { ns_r: 10, ns_w: 11, net_r: 12, net_w: 13 }
}

fn failure() -> AppError {
    AppError::Io("denied".to_string())
}

fn done() -> StartEvent {
    StartEvent::Carried { outcome: Outcome::Done }
}

fn failed() -> StartEvent {
    StartEvent::Carried { outcome: Outcome::Failed(failure()) }
}

/// Carries out `n` operations, all of which succeed.
fn carry(
    plan: &LaunchPlan,
    cfg: &SandboxConfig,
    from: (Stage, StartAction),
    n: usize,
) -> (Stage, StartAction) {
    let mut state = from;
    for _ in 0..n {
        assert!(matches!(state.1, StartAction::Perform));
        assert!(state.0.operation(plan).is_some());
        state = continue_start(plan, cfg, state.0, done());
    }
    state
}

fn expect_failure(state: (Stage, StartAction), group_removed: bool) {
    assert!(matches!(state.0, Stage::Ended));
    match state.1 {
        StartAction::Fail { undo, error } => {
            assert!(matches!(error, AppError::Io(cause) if cause == "denied"));
            if group_removed {
                assert_eq!(undo.len(), 1);
                assert!(matches!(
                    &undo[0],
                    Op::RemoveDir { path } if path == "/sys/fs/cgroup/cb/000012ab34cd"
                ));
            } else {
                assert!(undo.is_empty());
            }
        }
        _ => panic!("did not fail"),
    }
}

#[test]
fn a_start_prepares_forks_and_attaches() {
    let cfg = config("1M");
    let plan = start_container(&cfg);
    let (stage, action) = carry(&plan, &cfg, begin_start(), 10);
    assert!(matches!(action, StartAction::MakePipes));
    let made = StartEvent::PipesMade { pipes: Ok(pipes()) };
    let (stage, action) = continue_start(&plan, &cfg, stage, made);
    assert!(matches!(action, StartAction::Fork));
    assert!(matches!(stage, Stage::Forking { pipes: p } if p == pipes()));
    let forked = continue_start(&plan, &cfg, stage, StartEvent::Forked { pid: Ok(4711) });
    assert!(matches!(forked.0.operation(&plan), Some(Op::CloseFd { fd: 11 })));
    // The probes for the bridge and for three rules succeed, so that five
    // operations are left out.
    let (stage, action) = carry(&plan, &cfg, forked, 21);
    assert!(matches!(stage, Stage::Ended));
    assert!(matches!(action, StartAction::Finish { pid: 4711 }));
}

#[test]
fn a_failed_preparation_asks_for_no_process() {
    let cfg = config("1M");
    let plan = start_container(&cfg);
    for n in 0..10 {
        let (stage, _) = carry(&plan, &cfg, begin_start(), n);
        let ended = continue_start(&plan, &cfg, stage, failed());
        expect_failure(ended, n >= 9);
    }
}

#[test]
fn an_unreadable_limit_ends_the_start_after_the_control_group() {
    let cfg = config("1é");
    let plan = start_container(&cfg);
    let (stage, action) = carry(&plan, &cfg, begin_start(), 9);
    assert!(matches!(stage, Stage::Ended));
    match action {
        StartAction::Unreadable { undo } => assert_eq!(undo.len(), 1),
        _ => panic!("went on"),
    }
}

#[test]
fn a_late_failure_removes_the_control_group() {
    let cfg = config("max");
    let plan = start_container(&cfg);

    let (stage, _) = carry(&plan, &cfg, begin_start(), 10);
    let event = StartEvent::PipesMade { pipes: Err(failure()) };
    expect_failure(continue_start(&plan, &cfg, stage, event), true);

    let (stage, _) = carry(&plan, &cfg, begin_start(), 10);
    let event = StartEvent::PipesMade { pipes: Ok(pipes()) };
    let (stage, _) = continue_start(&plan, &cfg, stage, event);
    let event = StartEvent::Forked { pid: Err(failure()) };
    expect_failure(continue_start(&plan, &cfg, stage, event), true);

    let (stage, _) = carry(&plan, &cfg, begin_start(), 10);
    let event = StartEvent::PipesMade { pipes: Ok(pipes()) };
    let (stage, _) = continue_start(&plan, &cfg, stage, event);
    let forked = continue_start(&plan, &cfg, stage, StartEvent::Forked { pid: Ok(7) });
    let (stage, _) = carry(&plan, &cfg, forked, 2);
    expect_failure(continue_start(&plan, &cfg, stage, failed()), true);
}

#[test]
fn what_was_not_asked_for_changes_nothing() {
    let cfg = config("1M");
    let plan = start_container(&cfg);
    let (stage, _) = begin_start();
    let event = StartEvent::Forked { pid: Ok(7) };
    let (stage, action) = continue_start(&plan, &cfg, stage, event);
    assert!(matches!(stage, Stage::Preparing { at: 0 }));
    assert!(matches!(action, StartAction::Nothing));
    assert!(Stage::Ended.operation(&plan).is_none());
    assert!(Stage::MakingPipes.operation(&plan).is_none());
}
