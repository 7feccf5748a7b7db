use madsterm::error::AppError;
use madsterm::manager::PtyManager;
use madsterm::reader::{reader_step, ReadEvent};
use madsterm::assembler::Utf8Assembler;
use madsterm::pty::read_output_chunk;

#[test]
fn rejected_geometry_creates_nothing() {
    let mut mgr = PtyManager::new();
    for (cols, rows) in [(0u16, 24u16), (80, 0), (501, 24), (80, 501), (0, 0)] {
        match mgr.create_session(cols, rows, None) {
            Err(AppError::InvalidInput(_)) => {}
            other => panic!("expected InvalidInput, got {:?}", other.map(|p| p.0)),
        }
    }
    match mgr.create_session(0, 24, None) {
        Err(e) => assert_eq!(e.message(), "Invalid cols value: 0 (must be 1-500)"),
        Ok(_) => panic!("expected InvalidInput"),
    }
}

#[test]
fn close_of_unknown_identifier_succeeds() {
    let mut mgr = PtyManager::new();
    assert!(mgr.close("b2fe8a4e-8c2b-4f7a-9e64-0d6a9896c0af").is_ok());
    assert!(mgr.close("b2fe8a4e-8c2b-4f7a-9e64-0d6a9896c0af").is_ok());
}

#[test]
fn write_and_resize_unknown_identifier_fail_not_found() {
    let mut mgr = PtyManager::new();
    match mgr.write("b2fe8a4e-8c2b-4f7a-9e64-0d6a9896c0af", "ls\n") {
        Err(AppError::NotFound(m)) => {
            assert_eq!(m, "Session b2fe8a4e-8c2b-4f7a-9e64-0d6a9896c0af not found")
        }
        other => panic!("expected NotFound, got {:?}", other),
    }
    match mgr.resize("b2fe8a4e-8c2b-4f7a-9e64-0d6a9896c0af", 80, 24) {
        Err(AppError::NotFound(_)) => {}
        other => panic!("expected NotFound, got {:?}", other),
    }
}

#[test]
fn session_lifecycle() {
    let mut mgr = PtyManager::new();
    let (id, _output) = mgr.create_session(80, 24, None).expect("pty creation");
    assert!(madsterm::validate::validate_session_id(&id).is_ok());

    // Writing and resizing a live session succeeds.
    mgr.write(&id, "true\n").expect("write");
    mgr.resize(&id, 100, 40).expect("resize");
    // Resizing twice to the same geometry succeeds both times.
    mgr.resize(&id, 80, 24).expect("first resize to 80x24");
    mgr.resize(&id, 80, 24).expect("second resize to 80x24");

    // Close succeeds, and afterwards the identifier is gone.
    mgr.close(&id).expect("close");
    match mgr.write(&id, "echo\n") {
        Err(AppError::NotFound(_)) => {}
        other => panic!("expected NotFound after close, got {:?}", other),
    }
    match mgr.resize(&id, 80, 24) {
        Err(AppError::NotFound(_)) => {}
        other => panic!("expected NotFound after close, got {:?}", other),
    }
    // Close is idempotent.
    assert!(mgr.close(&id).is_ok());
}

#[test]
fn successive_sessions_get_distinct_identifiers() {
    let mut mgr = PtyManager::new();
    let (id1, _o1) = mgr.create_session(80, 24, None).expect("first session");
    let (id2, _o2) = mgr.create_session(80, 24, None).expect("second session");
    assert_ne!(id1, id2);
    // Closing one leaves the other live.
    mgr.close(&id1).expect("close first");
    mgr.write(&id2, "true\n").expect("second session still writable");
    mgr.close(&id2).expect("close second");
}

#[test]
fn closed_session_reaches_end_of_stream() {
    let mut mgr = PtyManager::new();
    let (id, mut output) = mgr.create_session(80, 24, None).expect("pty creation");
    mgr.write(&id, "exit\n").expect("write");
    mgr.close(&id).expect("close");
    // The reader worker, run here inline, ends once the stream closes.
    let mut acc = Utf8Assembler::new();
    loop {
        let ev = read_output_chunk(&mut output);
        let step = reader_step(&mut acc, &ev);
        for piece in &step.texts {
            assert!(String::from_utf8(piece.clone()).is_ok());
        }
        if step.session_ended {
            break;
        }
        if let ReadEvent::Failed = ev {
            break;
        }
    }
}
