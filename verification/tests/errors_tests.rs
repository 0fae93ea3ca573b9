use rustscout::errors::{unify_path, SearchError};
use rustscout::rtrace::RTraceError;

#[test]
fn test_error_creation() {
    let err = SearchError::file_not_found("test.txt".to_string());
    assert!(matches!(err, SearchError::FileNotFound(_)));
    let err = SearchError::permission_denied("test.txt".to_string());
    assert!(matches!(err, SearchError::PermissionDenied(_)));
    let err = SearchError::invalid_pattern("Invalid regex".to_string());
    assert!(matches!(err, SearchError::InvalidPattern(_)));
    let err = SearchError::cache_error("Cache corrupted".to_string());
    assert!(matches!(err, SearchError::CacheError(_)));
    let err = SearchError::cache_version_mismatch("1.0.0".to_string(), "2.0.0".to_string());
    assert!(matches!(err, SearchError::CacheVersionMismatch { .. }));
}

#[test]
fn test_error_messages() {
    let err = SearchError::cache_version_mismatch("1.0.0".to_string(), "2.0.0".to_string());
    assert_eq!(err.message(), "Cache version mismatch: expected 2.0.0, found 1.0.0");
    let err = SearchError::invalid_pattern("Invalid regex: missing closing brace".to_string());
    assert_eq!(err.message(), "Invalid pattern: Invalid regex: missing closing brace");
    let err = SearchError::config_error("Missing required field".to_string());
    assert_eq!(err.message(), "Configuration error: Missing required field");
    let err = SearchError::file_not_found("test.txt".to_string());
    assert_eq!(err.message(), "File not found: test.txt");
}

#[test]
fn every_error_has_its_message() {
    assert_eq!(SearchError::permission_denied("p".to_string()).message(), "Permission denied: p");
    assert_eq!(SearchError::cache_error("c".to_string()).message(), "Cache error: c");
    assert_eq!(SearchError::IoError("i".to_string()).message(), "IO error: i");
    assert_eq!(SearchError::JsonError("j".to_string()).message(), "JSON error: j");
    let e = SearchError::encoding_error("\\\\?\\C:\\a.txt".to_string(), "bad byte".to_string());
    assert_eq!(e.message(), "Invalid UTF-8 in file C:\\a.txt: bad byte");
}

#[test]
fn unify_path_strips_unc_prefix() {
    assert_eq!(unify_path("\\\\?\\C:\\repo"), "C:\\repo");
    assert_eq!(unify_path("/home/user"), "/home/user");
}

#[test]
fn rtrace_errors_have_messages() {
    assert_eq!(RTraceError::Io("x".to_string()).message(), "IO error: x");
    assert_eq!(RTraceError::Pattern("x".to_string()).message(), "Pattern error: x");
    assert_eq!(RTraceError::Config("x".to_string()).message(), "Configuration error: x");
    assert_eq!(RTraceError::Search("x".to_string()).message(), "Search error: x");
}

#[test]
fn unifying_twice_changes_nothing() {
    let once = rustscout::errors::unify_path(r"\\?\C:\work\a.rs");
    assert_eq!(once, r"C:\work\a.rs");
    assert_eq!(rustscout::errors::unify_path(&once), once);
}
