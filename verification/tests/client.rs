use capsule_box::ipc::client::{
    run_list, run_remove, run_run, run_run_interactive, run_stop, show_list, show_remove, show_run,
    show_stop, SOCKET_PATH,
};
use capsule_box::ipc::protocol::{Request, Response};

fn text(s: &str) -> String {
    s.to_string()
}

fn failure() -> Response {
    Response::ErrorResponse { message: text("why") }
}

#[test]
fn requests_carry_what_the_user_gave() {
    assert!(matches!(run_list(), Request::ListRequest { all: false }));
    assert!(matches!(
        run_run(vec![text("ls"), text("/")], "128M"),
        Request::RunRequest { command, memory_limit, interactive: false }
            if command == vec!["ls", "/"] && memory_limit == "128M"
    ));
    assert!(matches!(
        run_run_interactive(vec![text("/bin/sh")], "max"),
        Request::RunRequest { command, memory_limit, interactive: true }
            if command == vec!["/bin/sh"] && memory_limit == "max"
    ));
    assert!(matches!(
        run_stop("abc"),
        Request::StopRequest { container_id, timeout: 10 } if container_id == "abc"
    ));
    assert!(matches!(
        run_remove("abc"),
        Request::RemoveRequest { container_id } if container_id == "abc"
    ));
}

#[test]
fn both_sides_meet_at_one_socket() {
    assert_eq!(SOCKET_PATH, "/run/cb/ipc.sock");
    assert_eq!(SOCKET_PATH, capsule_box::ipc::server::SOCKET_PATH);
}

#[test]
fn the_list_is_indented() {
    let response = Response::ListResponse { items: vec![text("a [Running] ls"), text("b")] };
    assert_eq!(show_list(&response), vec!["  a [Running] ls", "  b"]);
    assert_eq!(show_list(&Response::ListResponse { items: vec![] }), vec!["没有容器"]);
    assert_eq!(show_list(&failure()), vec!["错误: why"]);
    let other = Response::RunResponse { container_id: text("a") };
    assert_eq!(show_list(&other), vec!["意外的响应"]);
}

#[test]
fn answers_to_a_run_are_shown() {
    let response = Response::RunResponse { container_id: text("a") };
    assert_eq!(show_run(&response), "容器已启动: a");
    assert_eq!(show_run(&failure()), "启动失败: why");
    assert_eq!(show_run(&Response::ListResponse { items: vec![] }), "收到意外响应");
}

#[test]
fn answers_to_a_stop_are_shown() {
    let response = Response::StopResponse { container_id: text("a"), state: text("Stopping") };
    assert_eq!(show_stop(&response), "容器 a 现在状态: Stopping");
    assert_eq!(show_stop(&failure()), "错误: why");
    assert_eq!(show_stop(&Response::ListResponse { items: vec![] }), "意外的响应");
}

#[test]
fn answers_to_a_removal_are_shown() {
    let response = Response::StopResponse { container_id: text("a"), state: text("Removed") };
    assert_eq!(show_remove(&response), "container a Removed");
    assert_eq!(show_remove(&failure()), "container remove failed: why");
    assert_eq!(show_remove(&Response::ListResponse { items: vec![] }), "unexpected response");
}
