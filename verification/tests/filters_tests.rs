use rustscout::filters::{has_valid_extension, is_likely_binary, should_ignore, should_include_file};
use rustscout::rtrace;

#[test]
fn filters_test_has_valid_extension() {
    let extensions = Some(vec!["rs".to_string()]);
    assert!(has_valid_extension("test.rs", &extensions));
    assert!(!has_valid_extension("test.py", &extensions));
    assert!(has_valid_extension("test.RS", &extensions));
    assert!(!has_valid_extension("test", &extensions));
    let no_extensions = None;
    assert!(has_valid_extension("test.rs", &no_extensions));
}

#[test]
fn test_has_valid_extension() {
    let extensions = Some(vec!["rs".to_string()]);
    let no_extensions = None;
    assert!(rtrace::has_valid_extension("test.rs", &extensions));
    assert!(!rtrace::has_valid_extension("test.py", &extensions));
    assert!(rtrace::has_valid_extension("test.RS", &extensions));
    assert!(!rtrace::has_valid_extension("test", &extensions));
    assert!(rtrace::has_valid_extension("test.rs", &no_extensions));
}

#[test]
fn filters_test_should_ignore() {
    let ignore_patterns = vec![
        "**/test_[0-4].txt".to_string(),
        "target/**/*.rs".to_string(),
        ".git/*".to_string(),
        "**/*.tmp".to_string(),
    ];
    assert!(should_ignore("test_0.txt", "", &ignore_patterns));
    assert!(should_ignore("test_4.txt", "", &ignore_patterns));
    assert!(should_ignore("dir/test_2.txt", "", &ignore_patterns));
    assert!(should_ignore("target/debug/main.rs", "", &ignore_patterns));
    assert!(should_ignore(".git/config", "", &ignore_patterns));
    assert!(should_ignore("src/temp.tmp", "", &ignore_patterns));
    assert!(!should_ignore("test_5.txt", "", &ignore_patterns));
    assert!(!should_ignore("test_9.txt", "", &ignore_patterns));
    assert!(!should_ignore("src/main.rs", "", &ignore_patterns));
    assert!(!should_ignore(".git2/config", "", &ignore_patterns));
    assert!(!should_ignore(".gitignore", "", &ignore_patterns));
}

#[test]
fn test_should_ignore() {
    let ignore_patterns = vec![
        "target/**/*.rs".to_string(),
        ".git/*".to_string(),
        "**/*.tmp".to_string(),
    ];
    assert!(rtrace::should_ignore("target/debug/main.rs", &ignore_patterns));
    assert!(rtrace::should_ignore("target/release/lib.rs", &ignore_patterns));
    assert!(rtrace::should_ignore(".git/config", &ignore_patterns));
    assert!(rtrace::should_ignore("src/temp.tmp", &ignore_patterns));
    assert!(rtrace::should_ignore("deep/path/file.tmp", &ignore_patterns));
    assert!(!rtrace::should_ignore("src/main.rs", &ignore_patterns));
    assert!(!rtrace::should_ignore(".git2/config", &ignore_patterns));
    assert!(!rtrace::should_ignore("target/debug/main.txt", &ignore_patterns));
    assert!(!rtrace::should_ignore(".gitignore", &ignore_patterns));
}

#[test]
fn filters_test_is_likely_binary() {
    assert!(is_likely_binary("test.exe"));
    assert!(is_likely_binary("test.dll"));
    assert!(is_likely_binary("test.png"));
    assert!(is_likely_binary("test.PDF"));
    assert!(!is_likely_binary("test.rs"));
    assert!(!is_likely_binary("test.txt"));
    assert!(!is_likely_binary("test"));
}

#[test]
fn test_is_likely_binary() {
    assert!(rtrace::is_likely_binary("test.exe"));
    assert!(rtrace::is_likely_binary("test.dll"));
    assert!(rtrace::is_likely_binary("test.png"));
    assert!(rtrace::is_likely_binary("test.PDF"));
    assert!(!rtrace::is_likely_binary("test.rs"));
    assert!(!rtrace::is_likely_binary("test.txt"));
    assert!(!rtrace::is_likely_binary("test"));
}

#[test]
fn filters_test_should_include_file() {
    let extensions = Some(vec!["rs".to_string()]);
    let ignore_patterns = vec!["target/**/*.rs".to_string()];
    assert!(should_include_file("src/main.rs", "", &extensions, &ignore_patterns));
    assert!(!should_include_file("src/main.py", "", &extensions, &ignore_patterns));
    assert!(!should_include_file("target/debug/main.rs", "", &extensions, &ignore_patterns));
    assert!(!should_include_file("src/test.exe", "", &extensions, &ignore_patterns));
    assert!(should_include_file("target.rs", "", &extensions, &ignore_patterns));
}

#[test]
fn test_should_include_file() {
    let extensions = Some(vec!["rs".to_string()]);
    let ignore_patterns = vec!["target/**/*.rs".to_string()];
    assert!(rtrace::should_include_file("src/main.rs", &extensions, &ignore_patterns));
    assert!(!rtrace::should_include_file("src/main.py", &extensions, &ignore_patterns));
    assert!(!rtrace::should_include_file("target/debug/main.rs", &extensions, &ignore_patterns));
    assert!(!rtrace::should_include_file("src/test.exe", &extensions, &ignore_patterns));
    assert!(rtrace::should_include_file("target.rs", &extensions, &ignore_patterns));
}

#[test]
fn test_ignore_no_slash_pattern() {
    let patterns = vec!["invalid.rs".to_string()];
    assert!(should_ignore("C:/Users/foo/bar/invalid.rs", "", &patterns));
    assert!(!should_ignore("C:/Users/foo/bar/other.rs", "", &patterns));
}

#[test]
fn test_ignore_slash_pattern() {
    let patterns = vec!["**/invalid.rs".to_string()];
    assert!(should_ignore("C:/Users/foo/bar/invalid.rs", "", &patterns));
}

#[test]
fn test_ignore_filename_no_slash() {
    let patterns = vec!["invalid.rs".to_string()];
    assert!(should_ignore("C:/Users/foo/bar/invalid.rs", "", &patterns));
    assert!(should_ignore("C:/Users/foo/bar/baz/invalid.rs", "", &patterns));
    assert!(!should_ignore("C:/Users/foo/bar/other.rs", "", &patterns));
}

#[test]
fn test_ignore_with_slash_glob() {
    let root = "C:/repo";
    let patterns = vec!["tests/*.rs".to_string()];
    assert!(should_ignore("C:/repo/tests/invalid.rs", root, &patterns));
    assert!(!should_ignore("C:/repo/src/invalid.rs", root, &patterns));
    assert!(!should_ignore("C:/repo/docs/README.md", root, &patterns));
}

#[test]
fn test_ignore_star_glob_no_subdirs() {
    let root = "C:/repo";
    let patterns = vec!["src/*.rs".to_string()];
    assert!(should_ignore("C:/repo/src/foo.rs", root, &patterns));
    assert!(should_ignore("C:/repo/src/bar.rs", root, &patterns));
    assert!(!should_ignore("C:/repo/src/nested/baz.rs", root, &patterns));
}

#[test]
fn test_ignore_double_star_glob() {
    let root = "C:/repo";
    let patterns = vec!["src/**/*.rs".to_string()];
    assert!(should_ignore("C:/repo/src/foo.rs", root, &patterns));
    assert!(should_ignore("C:/repo/src/nested/bar.rs", root, &patterns));
}

#[test]
fn invalid_glob_is_passed_over() {
    // A pattern that does not compile ignores nothing.
    let patterns = vec!["[".to_string()];
    assert!(!should_ignore("src/main.rs", "", &patterns));
}

#[test]
fn builtin_ignores_and_name_globs() {
    assert!(should_ignore("/repo/.git/config", "/repo", &vec![]));
    assert!(should_ignore("/repo/target/debug/main.rs", "/repo", &vec![]));
    assert!(should_ignore("/repo/crates/a/target/x.rs", "/repo", &vec![]));
    assert!(!should_ignore("/repo/src/target.rs", "/repo", &vec![]));
    assert!(!should_ignore("/repo/src/main.rs", "/repo", &vec![]));
    let tmp = vec!["*.tmp".to_string()];
    assert!(should_ignore("src/temp.tmp", "", &tmp));
    assert!(!should_ignore("src/temp.txt", "", &tmp));
}
