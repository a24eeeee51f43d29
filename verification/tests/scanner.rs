use secure_backup::scanner::compute_diff;
use secure_backup::scanner::DirectoryScanner;
use secure_backup::scanner::FileInfo;
use secure_backup::scanner::ScanResult;
use secure_backup::scanner::SourceFile;
use secure_backup::text::is_wf_rel_path;
use secure_backup::text::normalize_separators;

fn entry(path: &str, data: &[u8]) -> SourceFile {
    SourceFile {
        relative_path: path.to_string(),
        size: data.len() as u64,
        modified: 1_700_000_000_000,
        data: data.to_vec(),
    }
}

fn info(path: &str, size: u64, modified: i64, hash: Option<&str>) -> FileInfo {
    FileInfo {
        relative_path: path.to_string(),
        size,
        modified,
        hash: hash.map(|h| h.to_string()),
    }
}

#[test]
fn test_scan_directory() {
    let entries = vec![entry("test.txt", b"Hello, World!\n")];
    let scanner = DirectoryScanner::new("/test");
    let result = scanner.scan(&entries);

    assert_eq!(result.total_files, 1);
    assert!(result.contains_path("test.txt"));
}

#[test]
fn test_compute_diff() {
    let now = chrono::Utc::now().timestamp_millis();
    let old_files = vec![
        info("a.txt", 100, now, Some("hash_a")),
        info("b.txt", 200, now, Some("hash_b")),
    ];
    let old = ScanResult {
        source_dir: "/test".to_string(),
        scanned_at: now,
        files: old_files,
        total_files: 2,
        total_size: 300,
    };

    let new_files = vec![
        info("a.txt", 100, now, Some("hash_a")),
        info("c.txt", 300, now, Some("hash_c")),
    ];
    let new = ScanResult {
        source_dir: "/test".to_string(),
        scanned_at: now,
        files: new_files,
        total_files: 2,
        total_size: 400,
    };

    let diff = compute_diff(&old, &new);

    assert_eq!(diff.added, vec!["c.txt"]);
    assert_eq!(diff.deleted, vec!["b.txt"]);
    assert_eq!(diff.unchanged, vec!["a.txt"]);
    assert!(diff.modified.is_empty());
}

#[test]
fn test_diff_counts() {
    let now = 1_700_000_000_000i64;
    let old = ScanResult {
        source_dir: "/test".to_string(),
        scanned_at: now,
        files: vec![info("a.txt", 1, now, Some("ha")), info("b.txt", 2, now, Some("hb"))],
        total_files: 2,
        total_size: 3,
    };
    let new = ScanResult {
        source_dir: "/test".to_string(),
        scanned_at: now,
        files: vec![info("a.txt", 1, now, Some("hx")), info("b.txt", 2, now, Some("hb"))],
        total_files: 2,
        total_size: 3,
    };
    let diff = compute_diff(&old, &new);
    assert_eq!(diff.modified, vec!["a.txt"]);
    assert!(diff.has_changes());
    assert_eq!(diff.changed_count(), 1);

    let same = compute_diff(&old, &old);
    assert!(!same.has_changes());
    assert_eq!(same.changed_count(), 0);
    assert_eq!(same.unchanged.len(), 2);
}

#[test]
fn test_size_and_modified_fallback_without_hash() {
    let now = 1_700_000_000_000i64;
    let old = ScanResult {
        source_dir: "/test".to_string(),
        scanned_at: now,
        files: vec![info("a.txt", 1, now, None), info("b.txt", 2, now, None)],
        total_files: 2,
        total_size: 3,
    };
    let new = ScanResult {
        source_dir: "/test".to_string(),
        scanned_at: now,
        files: vec![info("a.txt", 5, now, None), info("b.txt", 2, now, None)],
        total_files: 2,
        total_size: 7,
    };
    let diff = compute_diff(&old, &new);
    assert_eq!(diff.modified, vec!["a.txt"]);
    assert_eq!(diff.unchanged, vec!["b.txt"]);
}

#[test]
fn test_scan_hashes_content() {
    let entries = vec![entry("a.txt", b"alpha"), entry("b.txt", b"alpha"), entry("c.txt", b"beta")];
    let scanner = DirectoryScanner::new("/test").with_hash();
    let result = scanner.scan(&entries);

    let ha = result.get("a.txt").unwrap().hash.clone().unwrap();
    let hb = result.get("b.txt").unwrap().hash.clone().unwrap();
    let hc = result.get("c.txt").unwrap().hash.clone().unwrap();
    assert_eq!(ha.len(), 64);
    assert!(ha.chars().all(|c| c.is_ascii_hexdigit() && !c.is_ascii_uppercase()));
    assert_eq!(ha, hb);
    assert_ne!(ha, hc);
}

#[test]
fn test_default_exclusions() {
    let entries = vec![
        entry(".git/config", b"[core]\n"),
        entry("node_modules/pkg/index.js", b"x"),
        entry("target/debug/app", b"y"),
        entry("src/main.rs", b"fn main() {}\n"),
    ];
    let scanner = DirectoryScanner::new("/test");
    let result = scanner.scan(&entries);

    assert_eq!(result.total_files, 1);
    assert!(result.contains_path("src/main.rs"));
    assert!(!result.contains_path(".git/config"));
    assert!(!result.contains_path("node_modules/pkg/index.js"));
    assert!(!result.contains_path("target/debug/app"));
}

#[test]
fn test_custom_exclusion_is_substring_match() {
    let entries = vec![entry("notes.tmp/file.txt", b"a"), entry("notes/file.txt", b"b")];
    let scanner = DirectoryScanner::new("/test").exclude(".tmp");
    let result = scanner.scan(&entries);
    assert_eq!(result.total_files, 1);
    assert!(result.contains_path("notes/file.txt"));
}

#[test]
fn test_scan_totals_are_consistent() {
    let entries = vec![entry("a.bin", &[0u8; 10]), entry("b.bin", &[1u8; 32])];
    let result = DirectoryScanner::new("/test").scan(&entries);
    assert_eq!(result.total_files, result.files.len());
    assert_eq!(result.total_size, 42);
}

#[test]
fn test_normalize_separators() {
    assert_eq!(normalize_separators("dir\\sub\\file.txt"), "dir/sub/file.txt");
    assert_eq!(normalize_separators("already/posix"), "already/posix");
}

#[test]
fn test_compute_hash_sets_hex_digest() {
    let mut fi = info("x.txt", 5, 0, None);
    fi.compute_hash(b"hello");
    let h = fi.hash.unwrap();
    assert_eq!(h.len(), 64);
    assert_ne!(h, "hello");
}

#[test]
fn test_is_wf_rel_path() {
    assert!(is_wf_rel_path("file.txt"));
    assert!(is_wf_rel_path("dir/sub/file.txt"));
    assert!(is_wf_rel_path("..dots/still..fine/x"));
    assert!(!is_wf_rel_path(""));
    assert!(!is_wf_rel_path("/absolute"));
    assert!(!is_wf_rel_path("dir\\windows"));
    assert!(!is_wf_rel_path(".."));
    assert!(!is_wf_rel_path("../escape"));
    assert!(!is_wf_rel_path("dir/../escape"));
    assert!(!is_wf_rel_path("dir/.."));
}
