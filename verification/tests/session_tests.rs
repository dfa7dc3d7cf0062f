use portable_pty::{native_pty_system, CommandBuilder, PtySize};
use std::io::Read;

use pty_sessions::errors::{flush_failure, resize_failure, write_failure, PtyError};
use pty_sessions::reader::{
    exit_event, reader_step, session_events, PtyEvent, ReadOutcome, ReaderStep,
};
use pty_sessions::registry::SessionRegistry;

#[test]
fn test_app_initialization() {
    assert!(true);
    let reg = SessionRegistry::new();
    assert!(reg.list_sessions().is_empty());
}

#[test]
fn create_returns_uuid_and_registers() {
    let mut reg = SessionRegistry::new();
    let id = reg.create_session(Some(120), Some(40));
    assert_eq!(id.len(), 36);
    assert!(reg.contains(&id));
    assert_eq!(reg.list_sessions(), vec![id.clone()]);
    assert_eq!(reg.sessions[0].cols, 120);
    assert_eq!(reg.sessions[0].rows, 40);
}

#[test]
fn create_defaults_to_80_by_24() {
    let mut reg = SessionRegistry::new();
    let id = reg.create_session(None, None);
    assert!(reg.contains(&id));
    assert_eq!(reg.sessions[0].cols, 80);
    assert_eq!(reg.sessions[0].rows, 24);
}

#[test]
fn two_creates_yield_distinct_independent_sessions() {
    let mut reg = SessionRegistry::new();
    let a = reg.create_session(Some(80), Some(24));
    let b = reg.create_session(Some(100), Some(30));
    assert_ne!(a, b);
    assert!(reg.contains(&a));
    assert!(reg.contains(&b));
    assert!(reg.record_resize(&a, 90, 25).is_ok());
    assert_eq!(reg.sessions[0].cols, 90);
    assert_eq!(reg.sessions[1].cols, 100);
}

#[test]
fn write_and_resize_on_unknown_id_report_session_not_found() {
    let mut reg = SessionRegistry::new();
    let missing = "no-such-session";
    match reg.require_session(missing) {
        Err(PtyError::SessionNotFound(id)) => assert_eq!(id, missing),
        other => panic!("unexpected: {:?}", other),
    }
    match reg.record_resize(missing, 80, 24) {
        Err(PtyError::SessionNotFound(id)) => assert_eq!(id, missing),
        other => panic!("unexpected: {:?}", other),
    }
}

#[test]
fn closed_session_never_listed_again() {
    let mut reg = SessionRegistry::new();
    let keep = reg.create_session(None, None);
    let gone = reg.create_session(None, None);
    assert!(reg.close_session(&gone).is_ok());
    let listed = reg.list_sessions();
    assert!(!listed.contains(&gone));
    assert!(listed.contains(&keep));
    match reg.close_session(&gone) {
        Err(PtyError::SessionNotFound(id)) => assert_eq!(id, gone),
        other => panic!("unexpected: {:?}", other),
    }
}

#[test]
fn resize_is_idempotent() {
    let mut reg = SessionRegistry::new();
    let id = reg.create_session(None, None);
    assert!(reg.record_resize(&id, 132, 43).is_ok());
    let after_once = (reg.sessions[0].cols, reg.sessions[0].rows);
    assert!(reg.record_resize(&id, 132, 43).is_ok());
    let after_twice = (reg.sessions[0].cols, reg.sessions[0].rows);
    assert_eq!(after_once, (132, 43));
    assert_eq!(after_twice, (132, 43));
    assert_eq!(reg.list_sessions(), vec![id]);
}

#[test]
fn reader_cleanup_is_idempotent_after_close() {
    let mut reg = SessionRegistry::new();
    let id = reg.create_session(None, None);
    assert!(reg.close_session(&id).is_ok());
    assert!(!reg.remove_session(&id));
    assert!(!reg.contains(&id));
}

#[test]
fn reader_step_emits_decoded_chunks_and_stops_at_eof() {
    match reader_step("sid", &ReadOutcome::Data(b"hi".to_vec())) {
        ReaderStep::Emit(o) => {
            assert_eq!(o.session_id, "sid");
            assert_eq!(o.data, "hi");
        }
        ReaderStep::Stop => panic!("expected output"),
    }
    assert!(matches!(reader_step("sid", &ReadOutcome::Eof), ReaderStep::Stop));
    assert!(matches!(
        reader_step("sid", &ReadOutcome::ReadError("gone".to_string())),
        ReaderStep::Stop
    ));
}

#[test]
fn reader_step_replaces_invalid_bytes() {
    match reader_step("sid", &ReadOutcome::Data(vec![0xff, b'a'])) {
        ReaderStep::Emit(o) => assert_eq!(o.data, "\u{FFFD}a"),
        ReaderStep::Stop => panic!("expected output"),
    }
}

#[test]
fn session_run_emits_outputs_then_exactly_one_exit() {
    let outcomes = vec![
        ReadOutcome::Data(b"hi".to_vec()),
        ReadOutcome::Data(b" there".to_vec()),
        ReadOutcome::Eof,
    ];
    let evs = session_events("sid", &outcomes, Some(0));
    assert_eq!(evs.len(), 3);
    match &evs[0] {
        PtyEvent::Output(o) => {
            assert_eq!(o.session_id, "sid");
            assert_eq!(o.data, "hi");
        }
        _ => panic!("expected output first"),
    }
    match &evs[1] {
        PtyEvent::Output(o) => assert_eq!(o.data, " there"),
        _ => panic!("expected output second"),
    }
    let exits = evs
        .iter()
        .filter(|e| matches!(e, PtyEvent::Exit(_)))
        .count();
    assert_eq!(exits, 1);
    match &evs[2] {
        PtyEvent::Exit(e) => {
            assert_eq!(e.session_id, "sid");
            assert_eq!(e.exit_code, Some(0));
        }
        _ => panic!("expected exit last"),
    }
}

#[test]
fn read_error_ends_stream_and_later_chunks_are_dropped() {
    let outcomes = vec![
        ReadOutcome::Data(b"a".to_vec()),
        ReadOutcome::ReadError("broken".to_string()),
        ReadOutcome::Data(b"late".to_vec()),
    ];
    let evs = session_events("sid", &outcomes, None);
    assert_eq!(evs.len(), 2);
    assert!(matches!(&evs[0], PtyEvent::Output(o) if o.data == "a"));
    assert!(matches!(&evs[1], PtyEvent::Exit(e) if e.exit_code.is_none()));
}

#[test]
fn exit_event_carries_id_and_code() {
    let e = exit_event("sid", Some(7));
    assert_eq!(e.session_id, "sid");
    assert_eq!(e.exit_code, Some(7));
    let none = exit_event("sid", None);
    assert_eq!(none.exit_code, None);
}

#[test]
fn error_messages_name_their_cause() {
    assert_eq!(
        PtyError::PtyOpenError("boom".to_string()).message(),
        "Failed to create PTY: boom"
    );
    assert_eq!(
        PtyError::SpawnError("no such file".to_string()).message(),
        "Failed to spawn command: no such file"
    );
    assert_eq!(
        PtyError::SessionNotFound("abc".to_string()).message(),
        "Session not found: abc"
    );
    assert_eq!(write_failure("pipe closed").message(), "Failed to write to PTY: pipe closed");
    assert_eq!(flush_failure("pipe closed").message(), "Failed to flush PTY: pipe closed");
    assert_eq!(resize_failure("bad fd").message(), "Failed to resize PTY: bad fd");
    assert_eq!(PtyError::WaitError.message(), "Failed to obtain exit status");
}

#[test]
fn spawn_failure_leaves_no_session_behind() {
    let reg = SessionRegistry::new();
    let err = PtyError::SpawnError("No such file or directory (os error 2)".to_string());
    assert!(err.message().starts_with("Failed to spawn command: "));
    assert!(reg.list_sessions().is_empty());
}

#[test]
fn write_after_child_exit_reports_error_not_success() {
    let mut reg = SessionRegistry::new();
    let id = reg.create_session(None, None);
    // The reader loop's cleanup ran: the id is gone and a write reports it.
    assert!(reg.remove_session(&id));
    match reg.require_session(&id) {
        Err(PtyError::SessionNotFound(missing)) => assert_eq!(missing, id),
        other => panic!("unexpected: {:?}", other),
    }
    // A write that raced ahead of cleanup fails at the OS level instead.
    let racing = write_failure("Broken pipe (os error 32)");
    assert!(matches!(racing, PtyError::IoError(_)));
}

#[test]
fn real_pty_child_output_round_trip() {
    let pty = native_pty_system();
    let pair = pty
        .openpty(PtySize { rows: 24, cols: 80, pixel_width: 0, pixel_height: 0 })
        .unwrap();
    let mut cmd = CommandBuilder::new("sh");
    cmd.arg("-c");
    cmd.arg("printf hi");
    let mut child = pair.slave.spawn_command(cmd).unwrap();
    drop(pair.slave);
    let mut reader = pair.master.try_clone_reader().unwrap();

    let mut outcomes = Vec::new();
    let mut buffer = [0u8; 4096];
    loop {
        match reader.read(&mut buffer) {
            Ok(0) => {
                outcomes.push(ReadOutcome::Eof);
                break;
            }
            Ok(n) => outcomes.push(ReadOutcome::Data(buffer[..n].to_vec())),
            Err(e) => {
                outcomes.push(ReadOutcome::ReadError(e.to_string()));
                break;
            }
        }
    }

    let exit_code = child.wait().ok().map(|status| status.exit_code() as i32);
    assert_eq!(exit_code, Some(0));

    let evs = session_events("sid", &outcomes, exit_code);
    let combined: String = evs
        .iter()
        .filter_map(|e| match e {
            PtyEvent::Output(o) => Some(o.data.clone()),
            PtyEvent::Exit(_) => None,
        })
        .collect();
    assert!(combined.contains("hi"));
    let exits: Vec<_> = evs
        .iter()
        .filter(|e| matches!(e, PtyEvent::Exit(_)))
        .collect();
    assert_eq!(exits.len(), 1);
    assert!(matches!(evs.last().unwrap(), PtyEvent::Exit(e) if e.exit_code == Some(0)));

    let mut reg = SessionRegistry::new();
    let id = reg.create_session(None, None);
    assert!(reg.remove_session(&id));
    assert!(!reg.list_sessions().contains(&id));
}
