use akra_hookers::transaction::{CodexLifecycleError, PreparedFile, PreparedFileKind};
use akra_hookers::write_run::{WriteAction, WriteRun};

fn file(kind: PreparedFileKind, path: &str, original: Option<&[u8]>, intended: Option<&[u8]>) -> PreparedFile {
    PreparedFile {
        kind,
        path: path.to_owned(),
        original: original.map(|b| b.to_vec()),
        intended: intended.map(|b| b.to_vec()),
    }
}

fn two_files() -> Vec<PreparedFile> {
    vec![
        file(PreparedFileKind::Config, "/h/config.toml", None, Some(b"trusted")),
        file(PreparedFileKind::Manifest, "/h/hooks.json", Some(b"{}"), Some(b"{\"hooks\":{}}")),
    ]
}

#[test]
fn write_run_writes_every_changed_file_in_order() {
    let changes = two_files();
    let (mut run, action) = WriteRun::start(&changes);
    assert!(matches!(action, WriteAction::ReadCurrent(0)));
    assert!(matches!(run.step(&changes, Ok(None)), WriteAction::Write(0)));
    assert!(matches!(run.step(&changes, Ok(None)), WriteAction::ReadCurrent(1)));
    assert!(matches!(run.step(&changes, Ok(Some(b"{}".to_vec()))), WriteAction::Write(1)));
    assert!(matches!(run.step(&changes, Ok(None)), WriteAction::Finish(Ok(()))));
    assert_eq!(run.attempted, vec![0, 1]);
}

#[test]
fn write_run_skips_files_that_need_no_write() {
    let changes = vec![
        file(PreparedFileKind::Config, "/h/config.toml", Some(b"same"), Some(b"same")),
        file(PreparedFileKind::Manifest, "/h/hooks.json", Some(b"{}"), None),
    ];
    let (_run, action) = WriteRun::start(&changes);
    assert!(matches!(action, WriteAction::Finish(Ok(()))));
}

#[test]
fn write_run_rolls_back_when_another_writer_changed_a_file() {
    let changes = two_files();
    let (mut run, _) = WriteRun::start(&changes);
    run.step(&changes, Ok(None));
    run.step(&changes, Ok(None));
    // hooks.json no longer holds what it held when the update was planned.
    assert!(matches!(
        run.step(&changes, Ok(Some(b"{\"other\":1}".to_vec()))),
        WriteAction::ReadBack(0)
    ));
    // config.toml still holds what was written, and did not exist before.
    assert!(matches!(
        run.step(&changes, Ok(Some(b"trusted".to_vec()))),
        WriteAction::RemoveFile(0)
    ));
    match run.step(&changes, Ok(None)) {
        WriteAction::Finish(Err(CodexLifecycleError::ConcurrentManifestChange(path))) => {
            assert_eq!(path, "/h/hooks.json");
        }
        _ => panic!("expected the concurrent change"),
    }
}

#[test]
fn write_run_restores_original_bytes_after_a_failed_write() {
    let changes = vec![
        file(PreparedFileKind::Config, "/h/config.toml", Some(b"old"), Some(b"new")),
        file(PreparedFileKind::Manifest, "/h/hooks.json", Some(b"{}"), Some(b"{\"hooks\":{}}")),
    ];
    let (mut run, _) = WriteRun::start(&changes);
    run.step(&changes, Ok(Some(b"old".to_vec())));
    run.step(&changes, Ok(None));
    run.step(&changes, Ok(Some(b"{}".to_vec())));
    // The write of hooks.json fails after replacing the file.
    assert!(matches!(
        run.step(&changes, Err(CodexLifecycleError::Io("disk full".to_owned()))),
        WriteAction::ReadBack(1)
    ));
    assert!(matches!(
        run.step(&changes, Ok(Some(b"{\"hooks\":{}}".to_vec()))),
        WriteAction::WriteOriginal(1)
    ));
    assert!(matches!(run.step(&changes, Ok(None)), WriteAction::ReadBack(0)));
    assert!(matches!(run.step(&changes, Ok(Some(b"new".to_vec()))), WriteAction::WriteOriginal(0)));
    match run.step(&changes, Ok(None)) {
        WriteAction::Finish(Err(CodexLifecycleError::Io(message))) => assert_eq!(message, "disk full"),
        _ => panic!("expected the write failure"),
    }
}

#[test]
fn write_run_reports_a_failed_rollback_with_its_first_failure() {
    let changes = two_files();
    let (mut run, _) = WriteRun::start(&changes);
    run.step(&changes, Ok(None));
    run.step(&changes, Ok(None));
    run.step(&changes, Err(CodexLifecycleError::Io("unreadable".to_owned())));
    // config.toml was changed again by someone else: it is left alone.
    match run.step(&changes, Ok(Some(b"theirs".to_vec()))) {
        WriteAction::Finish(Err(CodexLifecycleError::Rollback { source, rollback })) => {
            assert!(matches!(*source, CodexLifecycleError::Io(ref m) if m == "unreadable"));
            assert!(matches!(
                *rollback,
                CodexLifecycleError::ConcurrentConfigChange(ref p) if p == "/h/config.toml"
            ));
        }
        _ => panic!("expected a failed rollback"),
    }
}
