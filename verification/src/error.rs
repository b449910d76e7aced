//! What can go wrong, and what the user is told of it.

use crate::text;
use vstd::prelude::*;

verus! {

/// The errors of the runtime. Those that come from outside the library carry
/// the outside error's own description.
#[derive(Debug)]
pub enum AppError {
    Io(String),
    Json(String),
    ConnectionFailed(String),
    MessageTooLarge(u32),
    Syscall(String),
    Join(String),
    IpExhausted,
    NotFound(String),
    StillRunning(String),
}

#[verifier::ext_equal]
pub enum AppErrorView {
    Io(Seq<char>),
    Json(Seq<char>),
    ConnectionFailed(Seq<char>),
    MessageTooLarge(nat),
    Syscall(Seq<char>),
    Join(Seq<char>),
    IpExhausted,
    NotFound(Seq<char>),
    StillRunning(Seq<char>),
}

impl View for AppError {
    type V = AppErrorView;

    open spec fn view(&self) -> AppErrorView {
        match self {
            AppError::Io(cause) => AppErrorView::Io(cause@),
            AppError::Json(cause) => AppErrorView::Json(cause@),
            AppError::ConnectionFailed(cause) => AppErrorView::ConnectionFailed(cause@),
            AppError::MessageTooLarge(len) => AppErrorView::MessageTooLarge(*len as nat),
            AppError::Syscall(cause) => AppErrorView::Syscall(cause@),
            AppError::Join(cause) => AppErrorView::Join(cause@),
            AppError::IpExhausted => AppErrorView::IpExhausted,
            AppError::NotFound(id) => AppErrorView::NotFound(id@),
            AppError::StillRunning(id) => AppErrorView::StillRunning(id@),
        }
    }
}

/// What the user reads of an error.
pub open spec fn error_text(error: AppErrorView) -> Seq<char> {
    match error {
        AppErrorView::Io(cause) => "IO 错误: "@ + cause,
        AppErrorView::Json(cause) => "JSON 错误: "@ + cause,
        AppErrorView::ConnectionFailed(cause) => "连接 daemon 失败: "@ + cause,
        AppErrorView::MessageTooLarge(len) => "消息过大: "@ + text::decimal(len) + " 字节"@,
        AppErrorView::Syscall(cause) => "系统调用失败: "@ + cause,
        AppErrorView::Join(cause) => "任务错误: "@ + cause,
        AppErrorView::IpExhausted => "IP 地址已耗尽"@,
        AppErrorView::NotFound(id) => "容器不存在: "@ + id,
        AppErrorView::StillRunning(id) => "容器仍在运行，请先 stop: "@ + id,
    }
}

impl AppError {
    /// What the user reads of this error.
    pub fn message(&self) -> (message: String)
        ensures
            message@ == error_text(self@),
    {
        match self {
            AppError::Io(cause) => text::join("IO 错误: ", cause.as_str()),
            AppError::Json(cause) => text::join("JSON 错误: ", cause.as_str()),
            AppError::ConnectionFailed(cause) => text::join("连接 daemon 失败: ", cause.as_str()),
            AppError::MessageTooLarge(len) => {
                let mut message = text::join(
                    "消息过大: ",
                    text::decimal_text(*len as u64).as_str(),
                );
                message.append(" 字节");
                message
            },
            AppError::Syscall(cause) => text::join("系统调用失败: ", cause.as_str()),
            AppError::Join(cause) => text::join("任务错误: ", cause.as_str()),
            AppError::IpExhausted => "IP 地址已耗尽".to_owned(),
            AppError::NotFound(id) => text::join("容器不存在: ", id.as_str()),
            AppError::StillRunning(id) => text::join("容器仍在运行，请先 stop: ", id.as_str()),
        }
    }
}

/// What the user reads of an error says what kind of thing went wrong, and then
/// all of what is known of it.
pub proof fn errors_say_what_went_wrong(cause: Seq<char>, len: nat)
    ensures
        error_text(AppErrorView::Io(cause)) == "IO 错误: "@ + cause,
        error_text(AppErrorView::Json(cause)) == "JSON 错误: "@ + cause,
        error_text(AppErrorView::ConnectionFailed(cause)) == "连接 daemon 失败: "@ + cause,
        error_text(AppErrorView::MessageTooLarge(len)) == "消息过大: "@ + text::decimal(len)
            + " 字节"@,
        error_text(AppErrorView::Syscall(cause)) == "系统调用失败: "@ + cause,
        error_text(AppErrorView::Join(cause)) == "任务错误: "@ + cause,
        error_text(AppErrorView::IpExhausted) == "IP 地址已耗尽"@,
        error_text(AppErrorView::NotFound(cause)) == "容器不存在: "@ + cause,
        error_text(AppErrorView::StillRunning(cause)) == "容器仍在运行，请先 stop: "@ + cause,
{
}

/// An error is all of what it holds.
pub proof fn error_is_seen_whole(error: AppError)
    ensures
        error matches AppError::Io(cause) ==> error@ == AppErrorView::Io(cause@),
        error matches AppError::Json(cause) ==> error@ == AppErrorView::Json(cause@),
        error matches AppError::ConnectionFailed(cause) ==> error@
            == AppErrorView::ConnectionFailed(cause@),
        error matches AppError::MessageTooLarge(len) ==> error@ == AppErrorView::MessageTooLarge(
            len as nat,
        ),
        error matches AppError::Syscall(cause) ==> error@ == AppErrorView::Syscall(cause@),
        error matches AppError::Join(cause) ==> error@ == AppErrorView::Join(cause@),
        error is IpExhausted <==> error@ is IpExhausted,
        error matches AppError::NotFound(id) ==> error@ == AppErrorView::NotFound(id@),
        error matches AppError::StillRunning(id) ==> error@ == AppErrorView::StillRunning(id@),
{
}

} // verus!
