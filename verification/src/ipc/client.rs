//! What a client sends for each command of the user, and what it prints of the
//! answer.

use crate::ipc::protocol::{Request, RequestView, Response, ResponseView};
use crate::text;
use vstd::prelude::*;

verus! {

/// Where the daemon listens.
pub const SOCKET_PATH: &'static str = "/run/cb/ipc.sock";

/// The request for the list of containers.
pub fn run_list() -> (request: Request)
    ensures
        request@ == (RequestView::ListRequest { all: false }),
{
    Request::ListRequest { all: false }
}

/// The request to run a command.
pub fn run_run(command: Vec<String>, memory_limit: &str) -> (request: Request)
    ensures
        request@ == (RequestView::RunRequest {
            command: command.deep_view(),
            memory_limit: memory_limit@,
            interactive: false,
        }),
{
    Request::RunRequest { command, memory_limit: memory_limit.to_owned(), interactive: false }
}

/// The request to run a command at the user's terminal.
pub fn run_run_interactive(command: Vec<String>, memory_limit: &str) -> (request: Request)
    ensures
        request@ == (RequestView::RunRequest {
            command: command.deep_view(),
            memory_limit: memory_limit@,
            interactive: true,
        }),
{
    Request::RunRequest { command, memory_limit: memory_limit.to_owned(), interactive: true }
}

/// The request to stop a container.
pub fn run_stop(container_id: &str) -> (request: Request)
    ensures
        request@ == (RequestView::StopRequest { container_id: container_id@, timeout: 10 }),
{
    Request::StopRequest { container_id: container_id.to_owned(), timeout: 10 }
}

/// The request to remove a container.
pub fn run_remove(container_id: &str) -> (request: Request)
    ensures
        request@ == (RequestView::RemoveRequest { container_id: container_id@ }),
{
    Request::RemoveRequest { container_id: container_id.to_owned() }
}

/// The lines that list containers, each indented by two spaces.
pub open spec fn list_lines(items: Seq<Seq<char>>) -> Seq<Seq<char>> {
    if items.len() == 0 {
        seq!["没有容器"@]
    } else {
        items.map_values(|item: Seq<char>| "  "@ + item)
    }
}

/// What is printed of the answer to a request for the list.
pub open spec fn list_output(response: ResponseView) -> Seq<Seq<char>> {
    match response {
        ResponseView::ListResponse { items } => list_lines(items),
        ResponseView::ErrorResponse { message } => seq!["错误: "@ + message],
        _ => seq!["意外的响应"@],
    }
}

/// What is printed of the answer to a request to run a command.
pub open spec fn run_output(response: ResponseView) -> Seq<char> {
    match response {
        ResponseView::RunResponse { container_id } => "容器已启动: "@ + container_id,
        ResponseView::ErrorResponse { message } => "启动失败: "@ + message,
        _ => "收到意外响应"@,
    }
}

/// What is printed of the answer to a request to stop a container.
pub open spec fn stop_output(response: ResponseView) -> Seq<char> {
    match response {
        ResponseView::StopResponse { container_id, state } => "容器 "@ + container_id
            + " 现在状态: "@ + state,
        ResponseView::ErrorResponse { message } => "错误: "@ + message,
        _ => "意外的响应"@,
    }
}

/// What is printed of the answer to a request to remove a container.
pub open spec fn remove_output(response: ResponseView) -> Seq<char> {
    match response {
        ResponseView::StopResponse { container_id, state } => "container "@ + container_id + " "@
            + state,
        ResponseView::ErrorResponse { message } => "container remove failed: "@ + message,
        _ => "unexpected response"@,
    }
}

/// What is printed of the answer to a request for the list, line by line.
pub fn show_list(response: &Response) -> (lines: Vec<String>)
    ensures
        lines.deep_view() == list_output(response@),
{
    let mut lines: Vec<String> = Vec::new();
    match response {
        Response::ListResponse { items } => {
            if items.len() == 0 {
                lines.push("没有容器".to_owned());
                assert(lines.deep_view() =~= seq!["没有容器"@]);
                return lines;
            }
            let ghost all = list_lines(items.deep_view());
            let mut i: usize = 0;
            while i < items.len()
                invariant
                    i <= items.len(),
                    items.len() > 0,
                    all == list_lines(items.deep_view()),
                    lines.deep_view() =~= all.take(i as int),
                decreases items.len() - i,
            {
                let ghost before = lines.deep_view();
                let line = text::join("  ", items[i].as_str());
                let ghost shown = line@;
                lines.push(line);
                assert(lines.deep_view() =~= before.push(shown));
                i += 1;
            }
            assert(all.take(all.len() as int) =~= all);
        },
        Response::ErrorResponse { message } => {
            lines.push(text::join("错误: ", message.as_str()));
            assert(lines.deep_view() =~= seq!["错误: "@ + message@]);
        },
        _ => {
            lines.push("意外的响应".to_owned());
            assert(lines.deep_view() =~= seq!["意外的响应"@]);
        },
    }
    lines
}

/// What is printed of the answer to a request to run a command.
pub fn show_run(response: &Response) -> (line: String)
    ensures
        line@ == run_output(response@),
{
    match response {
        Response::RunResponse { container_id } => text::join(
            "容器已启动: ",
            container_id.as_str(),
        ),
        Response::ErrorResponse { message } => text::join("启动失败: ", message.as_str()),
        _ => "收到意外响应".to_owned(),
    }
}

/// What is printed of the answer to a request to stop a container.
pub fn show_stop(response: &Response) -> (line: String)
    ensures
        line@ == stop_output(response@),
{
    match response {
        Response::StopResponse { container_id, state } => {
            let mut line = text::join("容器 ", container_id.as_str());
            line.append(" 现在状态: ");
            line.append(state.as_str());
            line
        },
        Response::ErrorResponse { message } => text::join("错误: ", message.as_str()),
        _ => "意外的响应".to_owned(),
    }
}

/// What is printed of the answer to a request to remove a container.
pub fn show_remove(response: &Response) -> (line: String)
    ensures
        line@ == remove_output(response@),
{
    match response {
        Response::StopResponse { container_id, state } => {
            let mut line = text::join("container ", container_id.as_str());
            line.append(" ");
            line.append(state.as_str());
            line
        },
        Response::ErrorResponse { message } => text::join(
            "container remove failed: ",
            message.as_str(),
        ),
        _ => "unexpected response".to_owned(),
    }
}

/// The list is shown line by line, each line of the answer behind two spaces
/// and in its order; a list of none is said to be one.
pub proof fn list_is_shown_line_by_line(items: Seq<Seq<char>>, i: int)
    ensures
        ({
            let lines = list_output(ResponseView::ListResponse { items });
            &&& items.len() == 0 ==> lines == seq!["没有容器"@]
            &&& items.len() > 0 ==> lines.len() == items.len()
            &&& 0 <= i < items.len() ==> lines[i] == "  "@ + items[i]
        }),
{
}

/// What the user reads of an answer is what it says, whatever that is: of a
/// start its identifier, of an end the identifier and the state, and of an error
/// the message.
pub proof fn answers_are_shown_as_they_are(id: Seq<char>, state: Seq<char>, message: Seq<char>)
    ensures
        run_output(ResponseView::RunResponse { container_id: id }) == "容器已启动: "@ + id,
        run_output(ResponseView::ErrorResponse { message }) == "启动失败: "@ + message,
        stop_output(ResponseView::StopResponse { container_id: id, state }) == "容器 "@ + id
            + " 现在状态: "@ + state,
        stop_output(ResponseView::ErrorResponse { message }) == "错误: "@ + message,
        remove_output(ResponseView::StopResponse { container_id: id, state }) == "container "@ + id
            + " "@ + state,
        remove_output(ResponseView::ErrorResponse { message }) == "container remove failed: "@
            + message,
        list_output(ResponseView::ErrorResponse { message }) == seq!["错误: "@ + message],
{
}

/// An answer to another request is said to be unexpected, whatever it holds.
pub proof fn other_answers_are_unexpected(response: ResponseView)
    ensures
        response is StopResponse || response is RunResponse ==> list_output(response) == seq![
            "意外的响应"@,
        ],
        response is ListResponse || response is StopResponse ==> run_output(response)
            == "收到意外响应"@,
        response is ListResponse || response is RunResponse ==> stop_output(response)
            == "意外的响应"@ && remove_output(response) == "unexpected response"@,
{
}

} // verus!
