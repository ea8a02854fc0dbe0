use backend_supervisor::events::{ChildEvent, LifecycleEvent, StreamKind};
use backend_supervisor::supervisor::{ProcessSupervisor, SupervisorState};

fn running() -> ProcessSupervisor {
    let mut s = ProcessSupervisor::new();
    assert_eq!(s.start(Ok(4242)).unwrap(), 4242);
    s
}

fn line_of(e: &LifecycleEvent) -> (StreamKind, String) {
    match e {
        LifecycleEvent::OutputLine { stream, text } => (*stream, text.clone()),
        other => panic!("expected an output line, got {:?}", other),
    }
}

#[test]
fn new_supervisor_is_not_started() {
    let s = ProcessSupervisor::new();
    assert_eq!(s.state(), SupervisorState::NotStarted);
    assert_eq!(s.pid(), None);
}

#[test]
fn start_success_is_running() {
    let s = running();
    assert_eq!(s.state(), SupervisorState::Running);
    assert_eq!(s.pid(), Some(4242));
}

#[test]
fn spawn_of_missing_executable_is_a_failure() {
    let mut s = ProcessSupervisor::new();
    let r = s.start(Err("No such file or directory (os error 2)".to_string()));
    let failure = r.unwrap_err();
    assert_eq!(failure.message, "No such file or directory (os error 2)");
    assert_eq!(s.state(), SupervisorState::SpawnFailed);
    assert_eq!(s.pid(), None);
    assert!(s.handle(ChildEvent::Stdout(b"late\n".to_vec())).is_empty());
    assert!(s.handle(ChildEvent::Exited(Some(0))).is_empty());
}

#[test]
fn k_lines_then_one_termination() {
    let mut s = running();
    let out = s.handle(ChildEvent::Stdout(b"a\nbb\nccc\n".to_vec()));
    assert_eq!(out.len(), 3);
    assert_eq!(line_of(&out[0]), (StreamKind::Stdout, "a".to_string()));
    assert_eq!(line_of(&out[1]), (StreamKind::Stdout, "bb".to_string()));
    assert_eq!(line_of(&out[2]), (StreamKind::Stdout, "ccc".to_string()));
    let out = s.handle(ChildEvent::Exited(Some(0)));
    assert_eq!(out.len(), 1);
    assert!(matches!(out[0], LifecycleEvent::Terminated { exit_code: Some(0) }));
    assert_eq!(s.state(), SupervisorState::Terminated);
}

#[test]
fn lines_cut_across_chunks_are_joined() {
    let mut s = running();
    assert!(s.handle(ChildEvent::Stderr(b"warn".to_vec())).is_empty());
    let out = s.handle(ChildEvent::Stderr(b"ing: x\nrest".to_vec()));
    assert_eq!(out.len(), 1);
    assert_eq!(line_of(&out[0]), (StreamKind::Stderr, "warning: x".to_string()));
}

#[test]
fn streams_keep_separate_open_lines() {
    let mut s = running();
    assert!(s.handle(ChildEvent::Stdout(b"out-".to_vec())).is_empty());
    assert!(s.handle(ChildEvent::Stderr(b"err-".to_vec())).is_empty());
    let o = s.handle(ChildEvent::Stdout(b"1\n".to_vec()));
    let e = s.handle(ChildEvent::Stderr(b"2\n".to_vec()));
    assert_eq!(line_of(&o[0]), (StreamKind::Stdout, "out-1".to_string()));
    assert_eq!(line_of(&e[0]), (StreamKind::Stderr, "err-2".to_string()));
}

#[test]
fn invalid_utf8_still_gives_a_line() {
    let mut s = running();
    let out = s.handle(ChildEvent::Stdout(vec![b'o', b'k', 0xff, 0xfe, b'\n']));
    assert_eq!(out.len(), 1);
    assert_eq!(line_of(&out[0]), (StreamKind::Stdout, "ok\u{FFFD}\u{FFFD}".to_string()));
    assert_eq!(s.state(), SupervisorState::Running);
    let out = s.handle(ChildEvent::Stdout(b"after\n".to_vec()));
    assert_eq!(line_of(&out[0]), (StreamKind::Stdout, "after".to_string()));
}

#[test]
fn nothing_after_termination() {
    let mut s = running();
    let out = s.handle(ChildEvent::Exited(Some(137)));
    assert!(matches!(out[0], LifecycleEvent::Terminated { exit_code: Some(137) }));
    assert!(s.handle(ChildEvent::Stdout(b"late\n".to_vec())).is_empty());
    assert!(s.handle(ChildEvent::Stderr(b"late\n".to_vec())).is_empty());
    assert!(s.handle(ChildEvent::Exited(Some(0))).is_empty());
    assert!(s.handle(ChildEvent::ReadError("x".to_string())).is_empty());
    assert_eq!(s.state(), SupervisorState::Terminated);
}

#[test]
fn killed_child_terminates_once_with_signal_code() {
    let mut s = running();
    let out = s.handle(ChildEvent::Stdout(b"serving\n".to_vec()));
    assert_eq!(out.len(), 1);
    let out = s.handle(ChildEvent::Exited(Some(9)));
    assert_eq!(out.len(), 1);
    assert!(matches!(out[0], LifecycleEvent::Terminated { exit_code: Some(9) }));
    assert!(s.handle(ChildEvent::Exited(Some(9))).is_empty());
}

#[test]
fn exit_without_code_terminates() {
    let mut s = running();
    let out = s.handle(ChildEvent::Exited(None));
    assert!(matches!(out[0], LifecycleEvent::Terminated { exit_code: None }));
}

#[test]
fn read_error_is_reported_and_supervision_goes_on() {
    let mut s = running();
    let out = s.handle(ChildEvent::ReadError("broken pipe".to_string()));
    assert_eq!(out.len(), 1);
    match &out[0] {
        LifecycleEvent::SpawnError { message } => assert_eq!(message, "broken pipe"),
        other => panic!("expected an error event, got {:?}", other),
    }
    assert_eq!(s.state(), SupervisorState::Running);
}

#[test]
fn unterminated_output_gives_no_line() {
    let mut s = running();
    assert!(s.handle(ChildEvent::Stdout(b"no newline".to_vec())).is_empty());
    let out = s.handle(ChildEvent::Exited(Some(1)));
    assert_eq!(out.len(), 1);
}

#[test]
fn events_before_start_are_ignored() {
    let mut s = ProcessSupervisor::new();
    assert!(s.handle(ChildEvent::Stdout(b"x\n".to_vec())).is_empty());
    assert_eq!(s.state(), SupervisorState::NotStarted);
}
