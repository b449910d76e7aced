use capsule_box::container::{host_octet, ContainerInfo, ContainerManager, Signal};
use capsule_box::error::AppError;

fn info(id: &str, state: &str, pid: Option<u32>, ip: Option<&str>) -> ContainerInfo {
    ContainerInfo {
        id: id.to_string(),
        command: vec!["/bin/sh".to_string(), "-c".to_string()],
        state: state.to_string(),
        memory_limit: "256M".to_string(),
        pid,
        ip: ip.map(|s| s.to_string()),
    }
}

fn empty() -> ContainerManager {
    ContainerManager::new(Ok(vec![]))
}

#[test]
fn host_octet_is_the_last_segment() {
    assert_eq!(host_octet("10.0.0.5"), Some(5));
    assert_eq!(host_octet("10.0.0.254"), Some(254));
    assert_eq!(host_octet("10.0.0.256"), None);
    assert_eq!(host_octet("10.0.0."), None);
    assert_eq!(host_octet("10.0.0.x"), None);
    assert_eq!(host_octet("7"), Some(7));
    assert_eq!(host_octet("10.0.0.+7"), Some(7));
    assert_eq!(host_octet("10.0.0.007"), Some(7));
    assert_eq!(host_octet("10.0.0.-7"), None);
    assert_eq!(host_octet(""), None);
}

#[test]
fn addresses_are_taken_from_the_lowest() {
    let mut m = empty();
    assert_eq!(m.allocate_ip(), Some("10.0.0.2".to_string()));
    assert_eq!(m.allocate_ip(), Some("10.0.0.3".to_string()));
    assert_eq!(m.allocate_ip(), Some("10.0.0.4".to_string()));
    m.free_ip("10.0.0.3");
    assert_eq!(m.allocate_ip(), Some("10.0.0.3".to_string()));
    assert_eq!(m.allocate_ip(), Some("10.0.0.5".to_string()));
}

#[test]
fn addresses_run_out_after_253() {
    let mut m = empty();
    for n in 2..=254u32 {
        assert_eq!(m.allocate_ip(), Some(format!("10.0.0.{}", n)));
    }
    assert_eq!(m.allocate_ip(), None);
    assert_eq!(m.allocate_ip(), None);
    m.free_ip("10.0.0.254");
    assert_eq!(m.allocate_ip(), Some("10.0.0.254".to_string()));
    assert_eq!(m.allocate_ip(), None);
}

#[test]
fn freeing_what_is_no_address_changes_nothing() {
    let mut m = empty();
    m.allocate_ip();
    m.free_ip("not an address");
    m.free_ip("");
    assert_eq!(m.allocate_ip(), Some("10.0.0.3".to_string()));
}

#[test]
fn running_containers_keep_their_addresses_over_a_restart() {
    let mut m = ContainerManager::new(Ok(vec![
        info("a", "Running", Some(10), Some("10.0.0.2")),
        info("b", "Exited(0)", None, Some("10.0.0.3")),
        info("c", "Running", Some(11), Some("10.0.0.4")),
        info("d", "Running", Some(12), None),
    ]));
    assert_eq!(m.list().len(), 4);
    assert_eq!(m.allocate_ip(), Some("10.0.0.3".to_string()));
    assert_eq!(m.allocate_ip(), Some("10.0.0.5".to_string()));
}

#[test]
fn a_daemon_that_cannot_load_starts_empty() {
    let mut m = ContainerManager::new(Err(AppError::Io("denied".to_string())));
    assert_eq!(m.list().len(), 0);
    assert_eq!(m.allocate_ip(), Some("10.0.0.2".to_string()));
}

#[test]
fn of_two_loaded_entries_the_later_stands() {
    let m = ContainerManager::new(Ok(vec![
        info("a", "Running", Some(10), None),
        info("a", "Stopped", None, None),
    ]));
    assert_eq!(m.list().len(), 1);
    assert_eq!(m.get("a").unwrap().state, "Stopped");
}

#[test]
fn insert_replaces_the_entry_with_the_same_id() {
    let mut m = empty();
    m.insert(info("a", "Running", Some(1), None));
    m.insert(info("b", "Running", Some(2), None));
    m.insert(info("a", "Stopped", None, None));
    assert_eq!(m.list().len(), 2);
    assert_eq!(m.get("a").unwrap().state, "Stopped");
    assert_eq!(m.get("a").unwrap().pid, None);
    assert_eq!(m.get("b").unwrap().pid, Some(2));
    assert!(m.get("c").is_none());
}

#[test]
fn stop_clears_the_pid_and_keeps_the_address() {
    let mut m = empty();
    let ip = m.allocate_ip().unwrap();
    m.insert(info("a", "Running", Some(1), Some(&ip)));
    let (id, plan) = m.stop("a").unwrap();
    assert_eq!(id, "a");
    assert_eq!(plan.path, "/var/lib/cb/containers/a.json");
    assert_eq!(plan.metadata.state, "Stopped");
    assert_eq!(plan.metadata.pid, None);
    assert_eq!(m.get("a").unwrap().state, "Stopped");
    assert_eq!(m.get("a").unwrap().pid, None);
    assert_eq!(m.get("a").unwrap().ip, Some("10.0.0.2".to_string()));
    assert_eq!(m.allocate_ip(), Some("10.0.0.3".to_string()));
    assert!(m.stop("missing").is_none());
}

#[test]
fn exit_records_the_code_and_frees_the_address() {
    let mut m = empty();
    let first = m.allocate_ip().unwrap();
    let second = m.allocate_ip().unwrap();
    m.insert(info("a", "Running", Some(1), Some(&first)));
    m.insert(info("b", "Running", Some(2), Some(&second)));
    let plan = m.on_container_exit(1, -7).unwrap();
    assert_eq!(plan.metadata.id, "a");
    assert_eq!(plan.metadata.state, "Exited(-7)");
    assert_eq!(m.get("a").unwrap().state, "Exited(-7)");
    assert_eq!(m.get("a").unwrap().pid, None);
    assert_eq!(m.get("b").unwrap().state, "Running");
    assert_eq!(m.allocate_ip(), Some("10.0.0.2".to_string()));
    assert!(m.on_container_exit(1, 0).is_none());
    assert!(m.on_container_exit(99, 0).is_none());
    assert_eq!(m.on_container_exit(2, 137).unwrap().metadata.state, "Exited(137)");
}

#[test]
fn only_a_running_container_can_be_signalled() {
    let mut m = empty();
    m.insert(info("a", "Running", Some(4711), None));
    m.insert(info("b", "Exited(0)", None, None));
    m.insert(info("c", "Running", Some(u32::MAX), None));
    let kill = m.kill_container("a", Signal::Terminate).unwrap();
    assert_eq!(kill.pid, 4711);
    assert_eq!(kill.signal, Signal::Terminate);
    let kill = m.kill_container("c", Signal::Kill).unwrap();
    assert_eq!(kill.pid, -1);
    assert_eq!(kill.signal, Signal::Kill);
    assert!(m.kill_container("b", Signal::Terminate).is_none());
    assert!(m.kill_container("missing", Signal::Kill).is_none());
}

#[test]
fn removal_needs_a_known_container_that_does_not_run() {
    let mut m = empty();
    m.insert(info("a", "Running", Some(1), None));
    m.insert(info("b", "Exited(0)", None, None));
    assert!(matches!(m.check_removable("a"), Err(AppError::StillRunning(id)) if id == "a"));
    assert!(matches!(m.check_removable("x"), Err(AppError::NotFound(id)) if id == "x"));
    assert!(m.check_removable("b").is_ok());
    m.stop("a");
    assert!(m.check_removable("a").is_ok());
}

#[test]
fn removal_forgets_one_container_and_only_when_cleaned() {
    let mut m = empty();
    m.insert(info("a", "Exited(0)", None, None));
    m.insert(info("b", "Exited(0)", None, None));
    let failed = m.remove("a", Err(AppError::Io("busy".to_string())));
    assert!(matches!(failed, Err(AppError::Io(cause)) if cause == "busy"));
    assert!(m.get("a").is_some());
    assert!(m.remove("a", Ok(())).is_ok());
    assert!(m.get("a").is_none());
    assert!(m.get("b").is_some());
    assert!(m.remove("a", Ok(())).is_ok());
    assert_eq!(m.list().len(), 1);
}

#[test]
fn a_copy_of_an_entry_is_equal() {
    let a = info("a", "Running", Some(1), Some("10.0.0.2"));
    let b = a.clone();
    assert_eq!(a.id, b.id);
    assert_eq!(a.command, b.command);
    assert_eq!(a.state, b.state);
    assert_eq!(a.memory_limit, b.memory_limit);
    assert_eq!(a.pid, b.pid);
    assert_eq!(a.ip, b.ip);
}
