use capsule_box::container::{ContainerInfo, ContainerManager, Kill, Signal};
use capsule_box::error::AppError;
use capsule_box::ipc::protocol::{Request, Response};
use capsule_box::ipc::server::{
    can_list, clean_up, generate_id, handel_one_connection, on_arrival, reap, run_daemon,
    show_container, Action, Arrival, ChildStatus, Event, Phase, Pty, Reply,
};
use capsule_box::script::Op;

fn text(s: &str) -> String {
    s.to_string()
}

fn info(id: &str, pid: Option<u32>, ip: Option<&str>) -> ContainerInfo {
    ContainerInfo {
        id: text(id),
        command: vec![text("sleep"), text("300")],
        state: text("Running"),
        memory_limit: text("64M"),
        pid,
        ip: ip.map(|s| s.to_string()),
    }
}

fn manager(entries: Vec<ContainerInfo>) -> ContainerManager {
    ContainerManager::new(Ok(entries))
}

fn request(m: &mut ContainerManager, request: Request) -> (Phase, Vec<Action>) {
    handel_one_connection(m, Phase::Idle, Event::Requested { request, nanos: 0x12ab34 })
}

fn run(m: &mut ContainerManager, interactive: bool) -> (Phase, Vec<Action>) {
    let command = vec![text("ls"), text("/")];
    request(m, Request::RunRequest { command, memory_limit: text("1G"), interactive })
}

fn only_response(done: (Phase, Vec<Action>)) -> Response {
    assert!(matches!(done.0, Phase::Done));
    let mut actions = done.1;
    assert_eq!(actions.len(), 1);
    match actions.pop() {
        Some(Action::Respond(response)) => response,
        _ => panic!("no answer"),
    }
}

fn error_of(response: Response) -> String {
    match response {
        Response::ErrorResponse { message } => message,
        _ => panic!("no error"),
    }
}

fn stop_of(response: Response) -> (String, String) {
    match response {
        Response::StopResponse { container_id, state } => (container_id, state),
        _ => panic!("no stop"),
    }
}

#[test]
fn identifiers_are_twelve_hexadecimal_digits() {
    assert_eq!(generate_id(0), "000000000000");
    assert_eq!(generate_id(999_999_999), "00003b9ac9ff");
    assert_eq!(generate_id(0x12ab34), "00000012ab34");
    assert_ne!(generate_id(1), generate_id(2));
}

#[test]
fn the_list_shows_id_state_and_command() {
    let shown = show_container(&info("000012ab34cd99", Some(1), None));
    assert_eq!(shown, "000012ab34cd [Running] sleep 300");
    assert_eq!(show_container(&info("abc", Some(1), None)), "abc [Running] sleep 300");
    let mut m = manager(vec![info("a", Some(1), None), info("b", None, None)]);
    match only_response(request(&mut m, Request::ListRequest { all: false })) {
        Response::ListResponse { mut items } => {
            items.sort();
            assert_eq!(items, vec!["a [Running] sleep 300", "b [Running] sleep 300"]);
        }
        _ => panic!("no list"),
    }
    match only_response(request(&mut manager(vec![]), Request::ListRequest { all: true })) {
        Response::ListResponse { items } => assert!(items.is_empty()),
        _ => panic!("no list"),
    }
}

#[test]
fn identifiers_are_listed_only_if_they_can_be_cut() {
    assert!(can_list(&manager(vec![info("000012ab34cd99", None, None)])));
    assert!(can_list(&manager(vec![info("容器", None, None)])));
    assert!(can_list(&manager(vec![info("容器容器容器", None, None)])));
    assert!(!can_list(&manager(vec![info("a", None, None), info("0容器容器容器", None, None)])));
}

#[test]
fn a_running_container_is_terminated_then_killed() {
    let mut m = manager(vec![info("a", Some(42), Some("10.0.0.2"))]);
    let stop = Request::StopRequest { container_id: text("a"), timeout: 10 };
    let (phase, actions) = request(&mut m, stop);
    assert_eq!(actions.len(), 1);
    assert!(matches!(
        actions[0],
        Action::Kill(Kill { pid: 42, signal: Signal::Terminate })
    ));
    let (phase, actions) =
        handel_one_connection(&mut m, phase, Event::Signalled { sent: true });
    assert_eq!(actions.len(), 1);
    assert!(matches!(actions[0], Action::Sleep { seconds: 5 }));
    let (phase, mut actions) = handel_one_connection(&mut m, phase, Event::Woke);
    assert_eq!(actions.len(), 2);
    assert!(matches!(actions[0], Action::Kill(Kill { pid: 42, signal: Signal::Kill })));
    match actions.pop() {
        Some(Action::Respond(response)) => {
            assert_eq!(stop_of(response), (text("a"), text("Stopping")))
        }
        _ => panic!("no answer"),
    }
    assert!(matches!(phase, Phase::Done));
    assert_eq!(m.get("a").unwrap().pid, Some(42));
}

#[test]
fn a_container_that_ended_in_time_is_not_killed() {
    let mut m = manager(vec![info("a", Some(42), Some("10.0.0.2"))]);
    let stop = Request::StopRequest { container_id: text("a"), timeout: 10 };
    let (phase, _) = request(&mut m, stop);
    let (phase, _) = handel_one_connection(&mut m, phase, Event::Signalled { sent: true });
    let reaped = reap(&mut m, ChildStatus::Signaled { pid: 42 });
    assert!(reaped.again);
    assert_eq!(reaped.save.unwrap().metadata.state, "Exited(-1)");
    let done = handel_one_connection(&mut m, phase, Event::Woke);
    assert_eq!(stop_of(only_response(done)), (text("a"), text("Stopping")));
}

#[test]
fn a_container_that_cannot_be_signalled_is_recorded_as_stopped() {
    for pid in [None, Some(42)] {
        let mut m = manager(vec![info("a", pid, Some("10.0.0.2"))]);
        let stop = Request::StopRequest { container_id: text("a"), timeout: 10 };
        let (mut phase, mut actions) = request(&mut m, stop);
        if pid.is_some() {
            let next = handel_one_connection(&mut m, phase, Event::Signalled { sent: false });
            phase = next.0;
            actions = next.1;
        }
        assert_eq!(actions.len(), 1);
        match actions.pop() {
            Some(Action::Save(plan)) => {
                assert_eq!(plan.metadata.state, "Stopped");
                assert_eq!(plan.metadata.pid, None);
            }
            _ => panic!("not saved"),
        }
        assert_eq!(m.get("a").unwrap().state, "Stopped");
        let done = handel_one_connection(&mut m, phase, Event::Saved);
        assert_eq!(stop_of(only_response(done)), (text("a"), text("Stopped")));
    }
}

#[test]
fn an_unknown_container_cannot_be_stopped() {
    let mut m = manager(vec![]);
    let stop = Request::StopRequest { container_id: text("x"), timeout: 10 };
    assert_eq!(error_of(only_response(request(&mut m, stop))), "容器不存在: x");
}

#[test]
fn a_container_is_launched_saved_and_recorded() {
    let mut m = manager(vec![]);
    let (phase, mut actions) = run(&mut m, false);
    assert_eq!(actions.len(), 1);
    match actions.pop() {
        Some(Action::Launch(cfg)) => {
            assert_eq!(cfg.container_id, "00000012ab34");
            assert_eq!(cfg.command, vec!["ls", "/"]);
            assert_eq!(cfg.memory_limit, "1G");
            assert_eq!(cfg.hostname, "cb-00000012");
            assert_eq!(cfg.ip, "10.0.0.2");
            assert_eq!(cfg.stdio, None);
        }
        _ => panic!("not launched"),
    }
    let (phase, mut actions) =
        handel_one_connection(&mut m, phase, Event::Launched { pid: Ok(77) });
    assert_eq!(actions.len(), 1);
    match actions.pop() {
        Some(Action::Save(plan)) => {
            assert_eq!(plan.path, "/var/lib/cb/containers/00000012ab34.json");
            assert_eq!(plan.metadata.state, "Running");
            assert_eq!(plan.metadata.pid, Some(77));
            assert_eq!(plan.metadata.ip, Some(text("10.0.0.2")));
        }
        _ => panic!("not saved"),
    }
    assert!(m.get("00000012ab34").is_none());
    let done = handel_one_connection(&mut m, phase, Event::Saved);
    assert!(matches!(
        only_response(done),
        Response::RunResponse { container_id } if container_id == "00000012ab34"
    ));
    assert_eq!(m.get("00000012ab34").unwrap().pid, Some(77));
    assert_eq!(m.allocate_ip(), Some(text("10.0.0.3")));
}

#[test]
fn an_interactive_container_is_connected_with_its_terminal() {
    let mut m = manager(vec![]);
    let (phase, actions) = run(&mut m, true);
    assert_eq!(actions.len(), 1);
    assert!(matches!(actions[0], Action::OpenPty));
    let pty = Pty { master: 20, slave: 21 };
    let (phase, actions) =
        handel_one_connection(&mut m, phase, Event::PtyOpened { pty: Ok(pty) });
    assert_eq!(actions.len(), 1);
    assert!(matches!(&actions[0], Action::Launch(cfg) if cfg.stdio == Some(21)));
    let (phase, _) = handel_one_connection(&mut m, phase, Event::Launched { pid: Ok(77) });
    let (phase, actions) = handel_one_connection(&mut m, phase, Event::Saved);
    assert!(matches!(phase, Phase::Done));
    assert_eq!(actions.len(), 2);
    assert!(matches!(actions[0], Action::CloseFd { fd: 21 }));
    assert!(matches!(actions[1], Action::Forward { master: 20 }));
    assert_eq!(m.get("00000012ab34").unwrap().pid, Some(77));
}

#[test]
fn a_failed_start_gives_back_what_it_took() {
    let mut m = manager(vec![]);
    let (phase, _) = run(&mut m, false);
    let failure = Event::Launched { pid: Err(AppError::Syscall(text("EPERM"))) };
    let done = handel_one_connection(&mut m, phase, failure);
    assert_eq!(error_of(only_response(done)), "系统调用失败: EPERM");
    assert_eq!(m.list().len(), 0);

    let (phase, _) = run(&mut m, true);
    let pty = Pty { master: 20, slave: 21 };
    let (phase, _) = handel_one_connection(&mut m, phase, Event::PtyOpened { pty: Ok(pty) });
    let failure = Event::Launched { pid: Err(AppError::Join(text("panicked"))) };
    let (phase, mut actions) = handel_one_connection(&mut m, phase, failure);
    assert!(matches!(phase, Phase::Done));
    assert_eq!(actions.len(), 3);
    assert!(matches!(actions[0], Action::CloseFd { fd: 20 }));
    assert!(matches!(actions[1], Action::CloseFd { fd: 21 }));
    match actions.pop() {
        Some(Action::Respond(response)) => {
            assert_eq!(error_of(response), "任务错误: panicked")
        }
        _ => panic!("no answer"),
    }
    assert_eq!(m.allocate_ip(), Some(text("10.0.0.2")));
}

#[test]
fn a_terminal_that_cannot_be_made_gives_the_address_back() {
    let mut m = manager(vec![]);
    let (phase, _) = run(&mut m, true);
    let failure = Event::PtyOpened { pty: Err(AppError::Syscall(text("ENOENT"))) };
    let done = handel_one_connection(&mut m, phase, failure);
    assert_eq!(error_of(only_response(done)), "系统调用失败: ENOENT");
    assert_eq!(m.list().len(), 0);
    assert_eq!(m.allocate_ip(), Some(text("10.0.0.2")));
}

#[test]
fn a_start_without_free_address_is_refused() {
    let mut m = manager(vec![]);
    while m.allocate_ip().is_some() {}
    assert_eq!(error_of(only_response(run(&mut m, false))), "IP 地址已耗尽");
}

#[test]
fn a_running_or_unknown_container_is_not_removed() {
    let mut m = manager(vec![info("a", Some(42), None)]);
    let remove = Request::RemoveRequest { container_id: text("a") };
    assert_eq!(
        error_of(only_response(request(&mut m, remove))),
        "容器仍在运行，请先 stop: a"
    );
    let remove = Request::RemoveRequest { container_id: text("b") };
    assert_eq!(error_of(only_response(request(&mut m, remove))), "容器不存在: b");
    assert_eq!(m.list().len(), 1);
}

#[test]
fn a_container_is_removed_once_it_is_cleaned_up() {
    let mut m = manager(vec![info("a", None, None), info("b", None, None)]);
    let remove = Request::RemoveRequest { container_id: text("a") };
    let (phase, actions) = request(&mut m, remove);
    assert_eq!(actions.len(), 1);
    assert!(matches!(&actions[0], Action::Clean(script) if script.len() == 4));
    let failure = Event::Cleaned { result: Err(AppError::Io(text("busy"))) };
    let done = handel_one_connection(&mut m, phase, failure);
    assert_eq!(error_of(only_response(done)), "IO 错误: busy");
    assert!(m.get("a").is_some());

    let remove = Request::RemoveRequest { container_id: text("a") };
    let (phase, _) = request(&mut m, remove);
    let done = handel_one_connection(&mut m, phase, Event::Cleaned { result: Ok(()) });
    assert_eq!(stop_of(only_response(done)), (text("a"), text("Removed")));
    assert!(m.get("a").is_none());
    assert!(m.get("b").is_some());
}

#[test]
fn cleaning_up_takes_the_file_system_the_group_and_the_metadata() {
    let script = clean_up("abc");
    assert_eq!(script.len(), 4);
    assert!(matches!(&script[0], Op::Detach { target } if target == "/run/cb/containers/abc/merged"));
    assert!(matches!(&script[1], Op::RemoveDirAll { path } if path == "/run/cb/containers/abc"));
    assert!(matches!(&script[2], Op::RemoveDir { path } if path == "/sys/fs/cgroup/cb/abc"));
    assert!(
        matches!(&script[3], Op::RemoveFile { path } if path == "/var/lib/cb/containers/abc.json")
    );
}

#[test]
fn an_event_that_is_not_waited_for_changes_nothing() {
    let mut m = manager(vec![info("a", Some(42), None)]);
    let (phase, actions) = handel_one_connection(&mut m, Phase::Idle, Event::Woke);
    assert!(matches!(phase, Phase::Idle));
    assert!(actions.is_empty());
    let (phase, actions) = handel_one_connection(&mut m, Phase::Done, Event::Saved);
    assert!(matches!(phase, Phase::Done));
    assert!(actions.is_empty());
    assert_eq!(m.get("a").unwrap().pid, Some(42));
}

#[test]
fn children_are_reaped_until_none_is_left() {
    let mut m = manager(vec![info("a", Some(42), Some("10.0.0.2"))]);
    let reaped = reap(&mut m, ChildStatus::Exited { pid: 7, code: 0 });
    assert!(reaped.again && reaped.save.is_none());
    let reaped = reap(&mut m, ChildStatus::Exited { pid: 42, code: 3 });
    assert!(reaped.again);
    assert_eq!(reaped.save.unwrap().metadata.state, "Exited(3)");
    assert_eq!(m.allocate_ip(), Some(text("10.0.0.2")));
    let reaped = reap(&mut m, ChildStatus::Other);
    assert!(!reaped.again && reaped.save.is_none());
    assert_eq!(m.get("a").unwrap().state, "Exited(3)");
}

#[test]
fn the_daemon_prepares_its_directories_and_its_socket() {
    let script = run_daemon();
    assert_eq!(script.len(), 3);
    assert!(matches!(&script[0], Op::CreateDirAll { path } if path == "/run/cb/containers"));
    assert!(matches!(&script[1], Op::CreateDirAll { path } if path == "/sys/fs/cgroup/cb"));
    assert!(matches!(&script[2], Op::Discard { path } if path == "/run/cb/ipc.sock"));
}

#[test]
fn the_daemon_listens_until_it_is_interrupted() {
    assert!(matches!(on_arrival(Arrival::Connection), Reply::Serve));
    assert!(matches!(on_arrival(Arrival::FailedConnection), Reply::Ignore));
    match on_arrival(Arrival::Interrupt) {
        Reply::ShutDown(script) => {
            assert_eq!(script.len(), 1);
            assert!(matches!(&script[0], Op::Discard { path } if path == "/run/cb/ipc.sock"));
        }
        _ => panic!("listens on"),
    }
}

#[test]
fn a_container_lives_from_run_to_remove() {
    let mut m = manager(vec![]);
    let (phase, _) = run(&mut m, false);
    let (phase, _) = handel_one_connection(&mut m, phase, Event::Launched { pid: Ok(77) });
    handel_one_connection(&mut m, phase, Event::Saved);
    let id = text("00000012ab34");

    let refused = request(&mut m, Request::RemoveRequest { container_id: id.clone() });
    assert_eq!(
        error_of(only_response(refused)),
        "容器仍在运行，请先 stop: 00000012ab34"
    );

    reap(&mut m, ChildStatus::Exited { pid: 77, code: 0 });
    match only_response(request(&mut m, Request::ListRequest { all: true })) {
        Response::ListResponse { items } => {
            assert_eq!(items, vec!["00000012ab34 [Exited(0)] ls /"])
        }
        _ => panic!("no list"),
    }

    let (phase, _) = request(&mut m, Request::RemoveRequest { container_id: id.clone() });
    let done = handel_one_connection(&mut m, phase, Event::Cleaned { result: Ok(()) });
    assert_eq!(stop_of(only_response(done)), (id, text("Removed")));
    match only_response(request(&mut m, Request::ListRequest { all: true })) {
        Response::ListResponse { items } => assert!(items.is_empty()),
        _ => panic!("no list"),
    }
}

#[test]
fn a_restarted_daemon_has_the_containers_of_the_one_before() {
    let mut first = manager(vec![]);
    let (phase, _) = run(&mut first, false);
    let (phase, _) = handel_one_connection(&mut first, phase, Event::Launched { pid: Ok(77) });
    handel_one_connection(&mut first, phase, Event::Saved);
    let mut second = manager(first.list());
    assert_eq!(second.get("00000012ab34").unwrap().pid, Some(77));
    assert_eq!(second.get("00000012ab34").unwrap().ip, Some(text("10.0.0.2")));
    assert_eq!(second.allocate_ip(), Some(text("10.0.0.3")));
}

#[test]
fn no_two_running_containers_share_an_address() {
    let mut m = manager(vec![]);
    let mut phases = vec![];
    for nanos in 0..5u32 {
        let command = vec![text("ls")];
        let request = Request::RunRequest { command, memory_limit: text("max"), interactive: false };
        let event = Event::Requested { request, nanos };
        phases.push(handel_one_connection(&mut m, Phase::Idle, event).0);
    }
    for (i, phase) in phases.into_iter().enumerate() {
        let pid = if i == 2 { Err(AppError::Io(text("x"))) } else { Ok(100 + i as u32) };
        let (phase, _) = handel_one_connection(&mut m, phase, Event::Launched { pid });
        handel_one_connection(&mut m, phase, Event::Saved);
    }
    let mut ips: Vec<String> = m.list().into_iter().map(|c| c.ip.unwrap()).collect();
    ips.sort();
    assert_eq!(ips, vec!["10.0.0.2", "10.0.0.3", "10.0.0.5", "10.0.0.6"]);
}

#[test]
fn the_longest_request_has_its_answer_after_four_events() {
    let mut m = manager(vec![]);
    let (phase, actions) = run(&mut m, true);
    assert!(matches!(actions.last(), Some(Action::OpenPty)));
    let event = Event::PtyOpened { pty: Ok(Pty { master: 20, slave: 21 }) };
    let (phase, actions) = handel_one_connection(&mut m, phase, event);
    assert!(matches!(actions.last(), Some(Action::Launch(_))));
    let (phase, actions) =
        handel_one_connection(&mut m, phase, Event::Launched { pid: Ok(77) });
    assert!(matches!(actions.last(), Some(Action::Save(_))));
    let (phase, actions) = handel_one_connection(&mut m, phase, Event::Saved);
    assert!(matches!(actions.last(), Some(Action::Forward { .. })));
    assert!(matches!(phase, Phase::Done));
}

#[test]
fn what_is_saved_is_what_is_known() {
    let mut m = manager(vec![]);
    let (phase, _) = run(&mut m, false);
    let (phase, mut actions) =
        handel_one_connection(&mut m, phase, Event::Launched { pid: Ok(77) });
    let saved = match actions.pop() {
        Some(Action::Save(plan)) => plan.metadata,
        _ => panic!("not saved"),
    };
    handel_one_connection(&mut m, phase, Event::Saved);
    let known = m.get("00000012ab34").unwrap();
    assert_eq!(format!("{:?}", ContainerInfo::from(saved)), format!("{:?}", known));
    let exit = reap(&mut m, ChildStatus::Exited { pid: 77, code: 1 }).save.unwrap();
    let known = m.get("00000012ab34").unwrap();
    assert_eq!(format!("{:?}", ContainerInfo::from(exit.metadata)), format!("{:?}", known));
}
