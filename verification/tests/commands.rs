use secure_backup::commands::check_password;
use secure_backup::commands::format_file_size;
use secure_backup::commands::scan_response_of;
use secure_backup::scanner::DirectoryScanner;
use secure_backup::scanner::SourceFile;

#[test]
fn test_format_file_size() {
    assert_eq!(format_file_size(0), "0 bytes");
    assert_eq!(format_file_size(1024), "1.00 KB");
    assert_eq!(format_file_size(1536), "1.50 KB");
    assert_eq!(format_file_size(1099511627776), "1.00 TB");
}

#[test]
fn test_format_file_size_boundaries() {
    assert_eq!(format_file_size(1023), "1023 bytes");
    assert_eq!(format_file_size(1), "1 bytes");
    assert_eq!(format_file_size(2 * 1024 * 1024), "2.00 MB");
    assert_eq!(format_file_size(3 * 1024 * 1024 * 1024), "3.00 GB");
    assert_eq!(format_file_size(1535), "1.50 KB");
    assert_eq!(format_file_size(1100), "1.07 KB");
}

#[test]
fn test_check_password_weak() {
    let response = check_password("abc");
    assert_eq!(response.strength, "weak");
    assert_eq!(response.score, 1);
    // too short twice over, and missing upper case, digit and symbol
    assert_eq!(response.suggestions.len(), 5);
}

#[test]
fn test_check_password_strong() {
    let response = check_password("MyP@ssw0rd!123");
    assert_eq!(response.strength, "strong");
    assert_eq!(response.score, 3);
    assert!(response.suggestions.is_empty());
}

#[test]
fn test_check_password_medium() {
    let response = check_password("Abc12345");
    assert_eq!(response.strength, "medium");
    assert_eq!(response.score, 2);
    assert!(!response.suggestions.is_empty());
}

#[test]
fn test_scan_response_reports_totals() {
    let entries = vec![SourceFile {
        relative_path: "file.txt".to_string(),
        size: 9,
        modified: 0,
        data: b"nine byte".to_vec(),
    }];
    let scan = DirectoryScanner::new("/test").scan(&entries);
    let response = scan_response_of(&scan);
    assert!(response.success);
    assert_eq!(response.total_files, 1);
    assert_eq!(response.total_size, 9);
    assert!(response.error.is_none());
}
