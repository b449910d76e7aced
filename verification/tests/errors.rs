use capsule_box::error::AppError;

#[test]
fn every_error_says_what_happened() {
    let text = |s: &str| s.to_string();
    assert_eq!(AppError::Io(text("x")).message(), "IO 错误: x");
    assert_eq!(AppError::Json(text("x")).message(), "JSON 错误: x");
    assert_eq!(AppError::ConnectionFailed(text("x")).message(), "连接 daemon 失败: x");
    assert_eq!(AppError::MessageTooLarge(1_000_001).message(), "消息过大: 1000001 字节");
    assert_eq!(AppError::Syscall(text("EPERM")).message(), "系统调用失败: EPERM");
    assert_eq!(AppError::Join(text("x")).message(), "任务错误: x");
    assert_eq!(AppError::IpExhausted.message(), "IP 地址已耗尽");
    assert_eq!(AppError::NotFound(text("abc")).message(), "容器不存在: abc");
    assert_eq!(AppError::StillRunning(text("abc")).message(), "容器仍在运行，请先 stop: abc");
}
