use secure_backup::executor::BackupConfig;
use secure_backup::manifest::BackupManifest;
use secure_backup::scanner::FileInfo;
use secure_backup::scanner::ScanResult;

fn scan_with(files: Vec<FileInfo>, total_size: u64) -> ScanResult {
    let total_files = files.len();
    ScanResult {
        source_dir: "/test".to_string(),
        scanned_at: chrono::Utc::now().timestamp_millis(),
        files,
        total_files,
        total_size,
    }
}

#[test]
fn test_manifest_from_scan() {
    let files = vec![FileInfo {
        relative_path: "test.txt".to_string(),
        size: 1000,
        modified: chrono::Utc::now().timestamp_millis(),
        hash: Some("abc123".to_string()),
    }];
    let scan = scan_with(files, 1000);

    let config = BackupConfig::default();
    let manifest = BackupManifest::from_scan(&scan, &config);

    assert_eq!(manifest.stats.total_files, 1);
    assert!(manifest.contains_path("test.txt"));
}

#[test]
fn test_manifest_records_policy_and_stats() {
    let files = vec![
        FileInfo {
            relative_path: "a.txt".to_string(),
            size: 10,
            modified: 1_700_000_000_000,
            hash: Some("ha".to_string()),
        },
        FileInfo {
            relative_path: "b.txt".to_string(),
            size: 32,
            modified: 1_700_000_000_000,
            hash: Some("hb".to_string()),
        },
    ];
    let scan = scan_with(files, 42);
    let config = BackupConfig {
        source_dir: "/test".to_string(),
        dest_dir: "/backup".to_string(),
        encrypt: true,
        compress: false,
        incremental: true,
        exclude_patterns: vec![],
    };
    let manifest = BackupManifest::from_scan(&scan, &config);

    assert_eq!(manifest.version, "1.0.0");
    assert_eq!(manifest.source_dir, "/test");
    assert!(manifest.config.encrypt);
    assert!(!manifest.config.compress);
    assert_eq!(manifest.stats.total_original_size, 42);
    assert_eq!(manifest.stats.backup_count, 1);
    assert_eq!(manifest.created_at, manifest.updated_at);
    let entry = manifest.get("a.txt").unwrap();
    assert_eq!(entry.original_size, 10);
    assert_eq!(entry.hash, "ha");
    assert!(entry.encrypted);
    assert!(!entry.compressed);
    assert_eq!(entry.backed_up_size, 0);
}

#[test]
fn test_manifest_update_refreshes_inserts_and_drops() {
    let first = scan_with(
        vec![
            FileInfo {
                relative_path: "keep.txt".to_string(),
                size: 5,
                modified: 100,
                hash: Some("h1".to_string()),
            },
            FileInfo {
                relative_path: "gone.txt".to_string(),
                size: 7,
                modified: 100,
                hash: Some("h2".to_string()),
            },
        ],
        12,
    );
    let config = BackupConfig::default();
    let mut manifest = BackupManifest::from_scan(&first, &config);
    let created = manifest.created_at;

    let second = scan_with(
        vec![
            FileInfo {
                relative_path: "keep.txt".to_string(),
                size: 6,
                modified: 200,
                hash: Some("h3".to_string()),
            },
            FileInfo {
                relative_path: "new.txt".to_string(),
                size: 4,
                modified: 200,
                hash: Some("h4".to_string()),
            },
        ],
        10,
    );
    manifest.update(&second);

    assert_eq!(manifest.stats.backup_count, 2);
    assert_eq!(manifest.stats.total_files, 2);
    assert_eq!(manifest.stats.total_original_size, 10);
    assert_eq!(manifest.created_at, created);
    assert!(manifest.contains_path("keep.txt"));
    assert!(manifest.contains_path("new.txt"));
    assert!(!manifest.contains_path("gone.txt"));
    let kept = manifest.get("keep.txt").unwrap();
    assert_eq!(kept.hash, "h3");
    assert_eq!(kept.original_size, 6);
    assert_eq!(kept.modified, 200);
}
