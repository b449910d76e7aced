use capsule_box::error::AppError;
use capsule_box::sandbox::network::{
    ensure_bridge, ensure_iptables, setup_loopback, setup_nat, setup_veth_bridge,
};
use capsule_box::script::{advance, complaint, Op, Outcome};

fn failed() -> Outcome {
    Outcome::Failed(AppError::Io("denied".to_string()))
}

fn trace(script: &Vec<Op>, refused: &[usize]) -> Vec<usize> {
    let mut steps = vec![];
    let mut at = 0;
    while at < script.len() {
        steps.push(at);
        let outcome = if refused.contains(&at) { Outcome::Refused } else { Outcome::Done };
        match advance(script, at, outcome) {
            Ok(to) => at = to,
            Err(_) => break,
        }
    }
    steps
}

#[test]
fn a_command_that_reports_failure_ends_the_script() {
    let script = setup_veth_bridge("v1", "c\"1", 7, "10.0.0.2");
    match advance(&script, 0, Outcome::Refused) {
        Err(AppError::Io(text)) => assert_eq!(
            text,
            "命令失败: ip [\"link\", \"add\", \"v1\", \"type\", \"veth\", \"peer\", \"name\", \"c\\\"1\"]"
        ),
        _ => panic!("went on"),
    }
    assert!(matches!(advance(&script, 0, Outcome::Done), Ok(1)));
    assert!(
        matches!(advance(&script, 3, failed()), Err(AppError::Io(text)) if text == "denied")
    );
    assert_eq!(trace(&script, &[2]), vec![0, 1, 2]);
    assert_eq!(trace(&script, &[]), vec![0, 1, 2, 3, 4, 5, 6]);
}

#[test]
fn a_command_may_have_its_own_complaint() {
    let script = setup_loopback();
    assert!(matches!(
        advance(&script, 0, Outcome::Refused),
        Err(AppError::Io(text)) if text == "启动 lo 失败"
    ));
}

#[test]
fn complaints_show_the_command_line() {
    assert_eq!(complaint("iptables", "[\"-A\"]"), "命令失败: iptables [\"-A\"]");
}

#[test]
fn a_bridge_that_is_there_is_only_brought_up() {
    let script = ensure_bridge();
    assert_eq!(trace(&script, &[]), vec![0, 3]);
    assert_eq!(trace(&script, &[0]), vec![0, 1, 2, 3]);
    assert_eq!(trace(&script, &[0, 1]), vec![0, 1]);
    assert!(matches!(advance(&script, 0, failed()), Ok(1)));
}

#[test]
fn rules_that_are_there_are_not_added_again() {
    let script = setup_nat();
    assert_eq!(trace(&script, &[]), vec![0, 1, 3, 5]);
    assert_eq!(trace(&script, &[1, 3, 5]), vec![0, 1, 2, 3, 4, 5, 6]);
    assert_eq!(trace(&script, &[3]), vec![0, 1, 3, 4, 5]);
}

#[test]
fn adding_a_rule_again_leaves_one_copy() {
    let script = ensure_iptables(vec!["-A", "FORWARD"]);
    let mut copies = 0;
    for _ in 0..3 {
        let missing: &[usize] = if copies == 0 { &[0] } else { &[] };
        copies += trace(&script, missing).iter().filter(|at| **at == 1).count();
        assert_eq!(copies, 1);
    }
    assert!(matches!(advance(&script, 0, failed()), Ok(1)));
    match advance(&script, 1, Outcome::Refused) {
        Err(AppError::Io(text)) => {
            assert_eq!(text, "命令失败: iptables [\"-A\", \"FORWARD\"]")
        }
        _ => panic!("went on"),
    }
    assert!(matches!(advance(&script, 1, failed()), Err(AppError::Io(text)) if text == "denied"));
}

#[test]
fn some_failures_do_not_matter() {
    let script = vec![
        Op::Discard { path: "/a".to_string() },
        Op::Detach { target: "/a".to_string() },
        Op::CloseFd { fd: 1 },
        Op::Notify { fd: 1 },
        Op::Wait { fd: 1 },
        Op::NewSession,
        Op::ControllingTerminal { fd: 1 },
        Op::Duplicate { fd: 1, onto: 2 },
    ];
    for at in 0..script.len() {
        assert!(matches!(advance(&script, at, failed()), Ok(to) if to == at + 1));
    }
}

#[test]
fn other_failures_end_the_script() {
    let script = vec![
        Op::CreateDirAll { path: "/a".to_string() },
        Op::Write { path: "/a".to_string(), contents: "1".to_string() },
        Op::RemoveDir { path: "/a".to_string() },
        Op::RemoveDirAll { path: "/a".to_string() },
        Op::RemoveFile { path: "/a".to_string() },
        Op::MountOverlay { target: "/a".to_string(), options: String::new() },
        Op::Unshare,
        Op::SetHostname { name: "h".to_string() },
        Op::MountProc { target: "/a".to_string() },
        Op::BindDevices { target: "/a".to_string() },
        Op::ChangeRoot { path: "/a".to_string() },
        Op::ChangeDir { path: "/".to_string() },
        Op::Exec { argv: vec!["ls".to_string()] },
    ];
    for at in 0..script.len() {
        assert!(
            matches!(advance(&script, at, failed()), Err(AppError::Io(text)) if text == "denied")
        );
    }
}
