use secure_backup::executor::BackupConfig;
use secure_backup::executor::BackupExecutor;
use secure_backup::restore::RestoreConfig;
use secure_backup::restore::RestoreExecutor;
use secure_backup::restore::BackupInfo;
use secure_backup::scanner::SourceFile;

fn entry(path: &str, data: &[u8]) -> SourceFile {
    SourceFile {
        relative_path: path.to_string(),
        size: data.len() as u64,
        modified: 1_700_000_000_000,
        data: data.to_vec(),
    }
}

fn backup_config(encrypt: bool, compress: bool, incremental: bool) -> BackupConfig {
    BackupConfig {
        source_dir: "/source".to_string(),
        dest_dir: "/backup".to_string(),
        encrypt,
        compress,
        incremental,
        exclude_patterns: vec![],
    }
}

fn restore_config() -> RestoreConfig {
    RestoreConfig {
        backup_dir: "/backup".to_string(),
        restore_dir: "/restore".to_string(),
        files: vec![],
        overwrite: true,
    }
}

#[test]
fn test_full_backup() {
    let entries = vec![entry("test.txt", b"Hello, Backup!\n")];
    let executor = BackupExecutor::new(backup_config(false, true, false));
    let result = executor.execute(&entries, None).result;

    assert!(result.success);
    assert_eq!(result.backed_up_files, 1);
}

#[test]
fn test_full_backup_writes_zstd_framed_blob() {
    let source = b"Hello, Backup!\n";
    let entries = vec![entry("test.txt", source)];
    let executor = BackupExecutor::new(backup_config(false, true, false));
    let outcome = executor.execute(&entries, None);

    assert!(outcome.result.success);
    assert_eq!(outcome.blobs.len(), 1);
    assert_eq!(outcome.blobs[0].path, "data/test.txt");
    assert_ne!(outcome.blobs[0].data, source.to_vec());
    let decoded = zstd::stream::decode_all(&outcome.blobs[0].data[..]).unwrap();
    assert_eq!(decoded, source.to_vec());
    assert!(outcome.manifest.contains_path("test.txt"));
}

#[test]
fn test_restore_unencrypted() {
    let source = b"Hello, Restore!\n";
    let entries = vec![entry("test.txt", source)];
    let executor = BackupExecutor::new(backup_config(false, true, false));
    let backup_result = executor.execute(&entries, None);
    assert!(backup_result.result.success);

    let restore_executor = RestoreExecutor::new(restore_config());
    let restore_result =
        restore_executor.execute(&backup_result.manifest, &backup_result.blobs, &vec![]);

    assert!(restore_result.result.success);
    assert_eq!(restore_result.result.restored_files, 1);
    assert_eq!(restore_result.files.len(), 1);
    assert_eq!(restore_result.files[0].path, "test.txt");
    assert_eq!(restore_result.files[0].data, source.to_vec());
}

#[test]
fn test_restore_encrypted() {
    let source = b"Secret Data!\n";
    let entries = vec![entry("secret.txt", source)];
    let executor =
        BackupExecutor::new(backup_config(true, true, false)).with_encryption("test_password_123");
    let backup_result = executor.execute(&entries, None);
    assert!(backup_result.result.success);

    let restore_executor =
        RestoreExecutor::new(restore_config()).with_password("test_password_123");
    let restore_result =
        restore_executor.execute(&backup_result.manifest, &backup_result.blobs, &vec![]);

    assert!(restore_result.result.success);
    assert_eq!(restore_result.result.restored_files, 1);
    assert_eq!(restore_result.files.len(), 1);
    assert_eq!(restore_result.files[0].path, "secret.txt");
    assert_eq!(restore_result.files[0].data, source.to_vec());
}

#[test]
fn test_restore_wrong_password() {
    let source = b"Secret Data!\n";
    let entries = vec![entry("secret.txt", source)];
    let executor =
        BackupExecutor::new(backup_config(true, true, false)).with_encryption("correct_password");
    let backup_result = executor.execute(&entries, None);
    assert!(backup_result.result.success);

    let restore_executor = RestoreExecutor::new(restore_config()).with_password("wrong_password");
    let restore_result =
        restore_executor.execute(&backup_result.manifest, &backup_result.blobs, &vec![]);

    assert!(!restore_result.result.success);
    assert!(!restore_result.result.failed_files.is_empty());
    assert_eq!(restore_result.result.failed_files[0], "secret.txt: wrong password");
    assert!(restore_result.files.is_empty());
}

#[test]
fn test_incremental_no_op() {
    let entries = vec![entry("test.txt", b"Hello, Backup!\n")];
    let first = BackupExecutor::new(backup_config(false, true, false));
    let first_outcome = first.execute(&entries, None);
    assert!(first_outcome.result.success);
    assert_eq!(first_outcome.result.backed_up_files, 1);

    let second = BackupExecutor::new(backup_config(false, true, true));
    let second_outcome = second.execute(&entries, Some(&first_outcome.manifest));

    assert!(second_outcome.result.success);
    assert_eq!(second_outcome.result.backed_up_files, 0);
    assert_eq!(second_outcome.result.skipped_files, 1);
    assert_eq!(second_outcome.manifest.stats.backup_count, 2);
}

#[test]
fn test_incremental_backs_up_changes_only() {
    let first_entries = vec![entry("a.txt", b"one"), entry("b.txt", b"two")];
    let first = BackupExecutor::new(backup_config(false, true, false));
    let first_outcome = first.execute(&first_entries, None);

    let second_entries = vec![entry("a.txt", b"one"), entry("b.txt", b"two changed")];
    let second = BackupExecutor::new(backup_config(false, true, true));
    let outcome = second.execute(&second_entries, Some(&first_outcome.manifest));

    assert!(outcome.result.success);
    assert_eq!(outcome.result.backed_up_files, 1);
    assert_eq!(outcome.result.skipped_files, 1);
    assert_eq!(outcome.blobs.len(), 1);
    assert_eq!(outcome.blobs[0].path, "data/b.txt");
}

#[test]
fn test_backup_excludes_default_directories() {
    let entries = vec![
        entry(".git/HEAD", b"ref: refs/heads/main\n"),
        entry("kept.txt", b"kept"),
    ];
    let executor = BackupExecutor::new(backup_config(false, false, false));
    let outcome = executor.execute(&entries, None);

    assert!(outcome.result.success);
    assert_eq!(outcome.result.backed_up_files, 1);
    assert_eq!(outcome.blobs.len(), 1);
    assert_eq!(outcome.blobs[0].path, "data/kept.txt");
    assert!(!outcome.manifest.contains_path(".git/HEAD"));
}

#[test]
fn test_uncompressed_unencrypted_blob_is_verbatim() {
    let source = b"plain bytes";
    let entries = vec![entry("plain.txt", source)];
    let executor = BackupExecutor::new(backup_config(false, false, false));
    let outcome = executor.execute(&entries, None);
    assert_eq!(outcome.blobs[0].data, source.to_vec());

    let restore_executor = RestoreExecutor::new(restore_config());
    let restored = restore_executor.execute(&outcome.manifest, &outcome.blobs, &vec![]);
    assert_eq!(restored.files[0].data, source.to_vec());
}

#[test]
fn test_encrypted_blob_has_enc_suffix() {
    let entries = vec![entry("note.txt", b"hidden")];
    let executor =
        BackupExecutor::new(backup_config(true, true, false)).with_encryption("suffix_password");
    let outcome = executor.execute(&entries, None);
    assert_eq!(outcome.blobs[0].path, "data/note.txt.enc");
}

#[test]
fn test_restore_missing_blob_fails_per_file() {
    let entries = vec![entry("test.txt", b"data")];
    let executor = BackupExecutor::new(backup_config(false, true, false));
    let outcome = executor.execute(&entries, None);

    let restore_executor = RestoreExecutor::new(restore_config());
    let result = restore_executor.execute(&outcome.manifest, &vec![], &vec![]);
    assert!(!result.result.success);
    assert_eq!(result.result.failed_files.len(), 1);
    assert_eq!(result.result.failed_files[0], "test.txt: backup file not found");
}

#[test]
fn test_restore_corrupt_blob_fails_decompression() {
    let entries = vec![entry("test.txt", b"data")];
    let executor = BackupExecutor::new(backup_config(false, true, false));
    let mut outcome = executor.execute(&entries, None);
    outcome.blobs[0].data = b"not a zstd frame".to_vec();

    let restore_executor = RestoreExecutor::new(restore_config());
    let result = restore_executor.execute(&outcome.manifest, &outcome.blobs, &vec![]);
    assert!(!result.result.success);
    assert_eq!(result.result.failed_files.len(), 1);
    assert_eq!(result.result.failed_files[0], "test.txt: decompression error");
}

#[test]
fn test_restore_encrypted_without_password_fails() {
    let entries = vec![entry("secret.txt", b"locked")];
    let executor =
        BackupExecutor::new(backup_config(true, true, false)).with_encryption("a_password");
    let outcome = executor.execute(&entries, None);

    let restore_executor = RestoreExecutor::new(restore_config());
    let result = restore_executor.execute(&outcome.manifest, &outcome.blobs, &vec![]);
    assert!(!result.result.success);
    assert!(result.result.failed_files[0].contains("wrong password"));
}

#[test]
fn test_restore_skips_existing_without_overwrite() {
    let entries = vec![entry("test.txt", b"data")];
    let executor = BackupExecutor::new(backup_config(false, true, false));
    let outcome = executor.execute(&entries, None);

    let config = RestoreConfig {
        backup_dir: "/backup".to_string(),
        restore_dir: "/restore".to_string(),
        files: vec![],
        overwrite: false,
    };
    let restore_executor = RestoreExecutor::new(config);
    let existing = vec!["test.txt".to_string()];
    let result = restore_executor.execute(&outcome.manifest, &outcome.blobs, &existing);
    assert!(result.result.success);
    assert_eq!(result.result.restored_files, 0);
    assert_eq!(result.result.skipped_files, 1);
}

#[test]
fn test_restore_selected_files_only() {
    let entries = vec![entry("a.txt", b"aaa"), entry("b.txt", b"bbb")];
    let executor = BackupExecutor::new(backup_config(false, true, false));
    let outcome = executor.execute(&entries, None);

    let config = RestoreConfig {
        backup_dir: "/backup".to_string(),
        restore_dir: "/restore".to_string(),
        files: vec!["b.txt".to_string(), "missing.txt".to_string()],
        overwrite: true,
    };
    let restore_executor = RestoreExecutor::new(config);
    let result = restore_executor.execute(&outcome.manifest, &outcome.blobs, &vec![]);
    assert!(result.result.success);
    assert_eq!(result.result.restored_files, 1);
    assert_eq!(result.files[0].path, "b.txt");
    assert_eq!(result.files[0].data, b"bbb".to_vec());
}

#[test]
fn test_backup_info_from_manifest() {
    let entries = vec![entry("test.txt", b"data")];
    let executor = BackupExecutor::new(backup_config(false, true, false));
    let outcome = executor.execute(&entries, None);

    let backup_info = BackupInfo::from(&outcome.manifest);
    assert_eq!(backup_info.version, "1.0.0");
    assert_eq!(backup_info.total_files, 1);
    assert_eq!(backup_info.backup_count, 1);
    assert!(!backup_info.encrypted);
    assert!(backup_info.compressed);
}

#[test]
fn test_progress_trace_is_monotone_and_terminal() {
    let entries = vec![entry("a.txt", b"aaa"), entry("b.txt", b"bbb")];
    let executor = BackupExecutor::new(backup_config(false, true, false));
    let outcome = executor.execute(&entries, None);

    let trace = &outcome.progress;
    // one scanning event, one diffing event, one backing event per file,
    // one terminal event
    assert_eq!(trace.len(), 5);
    assert_eq!(trace[0].status, secure_backup::executor::BackupStatus::Scanning);
    assert_eq!(trace[1].status, secure_backup::executor::BackupStatus::ComputingDiff);
    assert_eq!(trace[2].status, secure_backup::executor::BackupStatus::Backing);
    assert!(trace[2].current_file.is_some());
    assert_eq!(trace[3].status, secure_backup::executor::BackupStatus::Backing);
    for w in trace.windows(2) {
        assert!(w[0].processed_files <= w[1].processed_files);
    }
    assert_eq!(trace.last().unwrap().processed_files, 2);
    assert_eq!(
        trace.last().unwrap().status,
        secure_backup::executor::BackupStatus::Completed
    );
}
