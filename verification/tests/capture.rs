use shelltape::pty_capture::CaptureBuffer;
use shelltape::pty_capture::Coordinator;
use shelltape::pty_capture::ExecutionResult;
use shelltape::pty_capture::HostShell;
use shelltape::pty_capture::SessionAction;
use shelltape::pty_capture::SessionEvent;
use shelltape::pty_capture::SessionPhase;
use shelltape::pty_capture::assemble_result;
use shelltape::pty_capture::parse_command;

#[test]
fn test_parse_command() {
    let (prog, args) = parse_command("echo hello world", HostShell::Plain);
    assert_eq!(prog, "echo");
    assert_eq!(args, vec!["hello".to_string(), "world".to_string()]);
}

#[test]
fn test_parse_command_empty() {
    let (prog, args) = parse_command("", HostShell::Plain);
    assert_eq!(prog, "");
    assert!(args.is_empty());
}

#[test]
fn test_parse_command_whitespace_only() {
    let (prog, args) = parse_command(" \t  \n ", HostShell::Plain);
    assert_eq!(prog, "");
    assert!(args.is_empty());
}

#[test]
fn test_parse_command_unicode_whitespace() {
    // a no-break space splits and trims like any other whitespace
    let (prog, args) = parse_command("a\u{a0}b", HostShell::Plain);
    assert_eq!(prog, "a");
    assert_eq!(args, vec!["b".to_string()]);

    let (prog2, args2) = parse_command("\u{a0}", HostShell::Plain);
    assert_eq!(prog2, "");
    assert!(args2.is_empty());
}

#[test]
fn test_parse_command_extra_spaces() {
    let (prog, args) = parse_command("  git   status  ", HostShell::Plain);
    assert_eq!(prog, "git");
    assert_eq!(args, vec!["status".to_string()]);
}

#[test]
fn test_parse_command_powershell() {
    let (prog, args) = parse_command("echo hi there", HostShell::Powershell);
    assert!(prog == "pwsh.exe" || prog == "powershell.exe");
    assert_eq!(
        args,
        vec![
            "-NoProfile".to_string(),
            "-NonInteractive".to_string(),
            "-Command".to_string(),
            "echo hi there".to_string()
        ]
    );
}

#[test]
fn test_capture_known_text_and_exit_zero() {
    let mut buf = CaptureBuffer::new();
    buf.append(b"hello\n");
    let r = assemble_result(&buf, 0, 100, 200);
    assert!(r.output.contains("hello"));
    assert_eq!(r.exit_code, 0);
}

#[test]
fn test_capture_nonzero_exit_code() {
    let buf = CaptureBuffer::new();
    let r = assemble_result(&buf, 3, 100, 200);
    assert_eq!(r.exit_code, 3);
}

#[test]
fn test_duration_nonnegative() {
    let buf = CaptureBuffer::new();
    let instant = assemble_result(&buf, 0, 500, 500);
    assert!(instant.end_time - instant.start_time >= 0);
    let quick = ExecutionResult::new(String::new(), 0, 500, 501);
    assert!(quick.end_time - quick.start_time >= 0);
}

#[test]
fn test_capture_order_kept() {
    let mut buf = CaptureBuffer::new();
    buf.append(b"A");
    buf.append(b" x done");
    let r = assemble_result(&buf, 0, 0, 1);
    assert!(r.output.ends_with("done"));
    let a_at = r.output.find('A').unwrap();
    let done_at = r.output.rfind("done").unwrap();
    assert!(a_at < done_at);
}

#[test]
fn test_capture_invalid_bytes_replaced() {
    let mut buf = CaptureBuffer::new();
    buf.append(&[0xff]);
    let r = assemble_result(&buf, 0, 0, 1);
    assert_eq!(r.output, "\u{FFFD}");
}

#[test]
fn test_coordinator_normal_run() {
    let mut c = Coordinator::new(100);
    assert_eq!(c.phase, SessionPhase::Spawned);
    assert_eq!(c.step(SessionEvent::Begin), SessionAction::WaitForChild);
    assert_eq!(c.phase, SessionPhase::WaitingForExit);
    assert_eq!(c.step(SessionEvent::ChildExited(0)), SessionAction::CloseController);
    assert_eq!(c.phase, SessionPhase::Draining);
    assert_eq!(c.exit_code, Some(0));
    assert_eq!(c.step(SessionEvent::PumpFinished), SessionAction::Finish);
    assert_eq!(c.phase, SessionPhase::Done);
}

#[test]
fn test_coordinator_bounded_drain() {
    let mut c = Coordinator::new(100);
    c.step(SessionEvent::Begin);
    c.step(SessionEvent::ChildExited(7));
    assert_eq!(c.step(SessionEvent::PollTick(50)), SessionAction::PollPump);
    assert_eq!(c.phase, SessionPhase::Draining);
    assert_eq!(c.step(SessionEvent::PollTick(150)), SessionAction::Finish);
    assert_eq!(c.phase, SessionPhase::Done);
    assert_eq!(c.exit_code, Some(7));
}

#[test]
fn test_coordinator_wait_failure() {
    let mut c = Coordinator::new(100);
    c.step(SessionEvent::Begin);
    assert_eq!(c.step(SessionEvent::WaitFailed), SessionAction::Abort);
    assert_eq!(c.phase, SessionPhase::Failed);
    assert_eq!(c.exit_code, None);
}
