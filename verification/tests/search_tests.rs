use rustscout::config::{EncodingMode, SearchConfig};
use rustscout::engine::{assemble_output, collect_results};
use rustscout::errors::{unify_path, SearchError};
use rustscout::filters::should_include_file;
use rustscout::boundary::{HyphenMode, WordBoundaryMode};
use rustscout::matcher::{check_definitions, PatternCache, PatternDefinition, PatternMatcher};
use rustscout::metrics::MemoryMetrics;
use rustscout::processor::FileProcessor;
use rustscout::results::{FileResult, SearchResult};

const ROOT: &str = "/work/project";

/// Runs the search pipeline of the library over files held in memory, in
/// the order of their paths, as the command line tool does over the files
/// it walks.
fn search_files(config: &SearchConfig, files: &[(String, Vec<u8>)]) -> Result<SearchResult, SearchError> {
    let defs = config.get_pattern_definitions();
    if defs.is_empty() {
        return Ok(SearchResult::new());
    }
    check_definitions(&defs)?;
    let mut metrics = MemoryMetrics::new();
    let mut cache = PatternCache::new();
    let matcher = PatternMatcher::try_with_metrics(defs, &mut metrics, &mut cache).expect("patterns compile");
    let mut processor =
        FileProcessor::new(matcher, config.context_before, config.context_after, config.encoding_mode);
    let mut sorted: Vec<&(String, Vec<u8>)> = files
        .iter()
        .filter(|(path, _)| {
            should_include_file(path, &config.root_path, &config.file_extensions, &config.ignore_patterns)
        })
        .collect();
    sorted.sort_by(|a, b| a.0.cmp(&b.0));
    let mut outcomes: Vec<Result<FileResult, SearchError>> = Vec::new();
    for (path, bytes) in sorted {
        let outcome = processor
            .process_bytes(path, bytes, Some(bytes.len() as u64))
            .map(|r| r.expect("match positions lie within the decoded text"));
        outcomes.push(outcome);
    }
    let results = collect_results(outcomes, config.encoding_mode)?;
    Ok(assemble_output(results, Vec::new()))
}

fn in_root(name: &str) -> String {
    format!("{}/{}", ROOT, name)
}

/// Files `test_{i}.txt`, each with `lines` groups of a TODO line, a plain
/// line and a FIXME line.
fn test_files(count: usize, lines: usize) -> Vec<(String, Vec<u8>)> {
    let mut files = Vec::new();
    for i in 0..count {
        let mut content = String::new();
        for j in 0..lines {
            content.push_str(&format!("Line {} in file {}: TODO implement this\n", j, i));
            content.push_str(&format!("Another line {} in file {}: nothing special\n", j, i));
            content.push_str(&format!("FIXME: This is a bug in file {} line {}\n", i, j));
        }
        files.push((in_root(&format!("test_{}.txt", i)), content.into_bytes()));
    }
    files
}

fn definition(text: &str, is_regex: bool) -> PatternDefinition {
    PatternDefinition {
        text: text.to_string(),
        is_regex,
        boundary_mode: WordBoundaryMode::NoBoundary,
        hyphen_mode: HyphenMode::default(),
    }
}

fn config_with(defs: Vec<PatternDefinition>) -> SearchConfig {
    let mut config = SearchConfig::default();
    config.pattern_definitions = defs;
    config.root_path = ROOT.to_string();
    config.thread_count = 4;
    config.encoding_mode = EncodingMode::FailFast;
    config
}

fn todo_config(mode: EncodingMode) -> SearchConfig {
    let mut config = SearchConfig::new_with_pattern("TODO".to_string(), false, WordBoundaryMode::NoBoundary);
    config.root_path = ROOT.to_string();
    config.encoding_mode = mode;
    config
}

#[test]
fn test_simple_pattern() {
    let mut config = config_with(vec![definition("TODO", false)]);
    config.context_before = 1;
    config.context_after = 1;
    let result = search_files(&config, &test_files(10, 100)).unwrap();
    assert!(result.total_matches > 0);
    assert!(result.files_with_matches > 0);
}

#[test]
fn test_regex_pattern() {
    let config = config_with(vec![definition(r"FIXME:.*bug.*line \d+", true)]);
    let result = search_files(&config, &test_files(10, 100)).unwrap();
    assert!(result.total_matches > 0);
    assert!(result.files_with_matches > 0);
}

#[test]
fn test_ignore_patterns() {
    let mut config = config_with(vec![definition("TODO", false)]);
    config.ignore_patterns = vec!["**/test_[0-4].txt".to_string()];
    let result = search_files(&config, &test_files(10, 100)).unwrap();
    assert!(
        result.files_with_matches <= 5,
        "Expected at most 5 files with matches, got {}",
        result.files_with_matches
    );
}

#[test]
fn integration_test_test_empty_pattern() {
    let config = config_with(vec![definition("", false)]);
    let result = search_files(&config, &test_files(1, 10)).unwrap();
    assert_eq!(result.total_matches, 0);
    assert_eq!(result.files_with_matches, 0);
}

#[test]
fn test_stats_only() {
    let mut config = config_with(vec![definition("TODO", false)]);
    config.stats_only = true;
    let result = search_files(&config, &test_files(10, 100)).unwrap();
    assert!(result.total_matches > 0);
    assert!(result.files_with_matches > 0);
}

#[test]
fn test_multiple_patterns() {
    let config = config_with(vec![definition("TODO", false), definition("FIXME.*bug", true)]);
    let result = search_files(&config, &test_files(10, 100)).unwrap();
    assert!(result.total_matches > 0);
    assert!(result.files_with_matches > 0);

    let mut found_todo = false;
    let mut found_fixme = false;
    for file_result in &result.file_results {
        for m in &file_result.matches {
            if m.line_content.contains("TODO") {
                found_todo = true;
            }
            if m.line_content.contains("FIXME") && m.line_content.contains("bug") {
                found_fixme = true;
            }
        }
    }
    assert!(found_todo, "Should find TODO patterns");
    assert!(found_fixme, "Should find FIXME patterns");
}

#[test]
fn test_empty_patterns() {
    let config = config_with(vec![definition("", false)]);
    let result = search_files(&config, &test_files(1, 10)).unwrap();
    assert_eq!(result.total_matches, 0);
    assert_eq!(result.files_with_matches, 0);
}

#[test]
fn test_search_hyphen_mode() {
    let files = vec![
        (in_root("code.txt"), b"test-case\ntest case\npretest-case".to_vec()),
        (in_root("text.txt"), b"hello-world\ngood-morning\nworld-class".to_vec()),
    ];

    let config = config_with(vec![PatternDefinition {
        text: "test".to_string(),
        is_regex: false,
        boundary_mode: WordBoundaryMode::WholeWords,
        hyphen_mode: HyphenMode::Joining,
    }]);
    let results = search_files(&config, &files).unwrap();
    assert_eq!(results.total_matches, 1);
    assert_eq!(results.files_with_matches, 1);
    assert!(results.file_results[0].matches.iter().any(|m| m.line_content.contains("test case")));

    let config = config_with(vec![PatternDefinition {
        text: "hello".to_string(),
        is_regex: false,
        boundary_mode: WordBoundaryMode::WholeWords,
        hyphen_mode: HyphenMode::Boundary,
    }]);
    let results = search_files(&config, &files).unwrap();
    assert_eq!(results.total_matches, 1);
    assert_eq!(results.files_with_matches, 1);
    assert!(results.file_results[0].matches.iter().any(|m| m.line_content.contains("hello-world")));
}

#[test]
fn test_utf8_handling_fail_fast() {
    let invalid_path = in_root("invalid.rs");
    let files = vec![
        (in_root("hello.rs"), b"Hello, world!\nTODO: test this".to_vec()),
        (
            in_root("spanish.rs"),
            "// función de prueba\nfn test_función() {\n    // TODO: implementar\n}".as_bytes().to_vec(),
        ),
        (
            invalid_path.clone(),
            [b"fn test() {\n    println!(\"Hello\");"[..].to_vec(), vec![0xFF, 0xFF], b"\n}".to_vec()].concat(),
        ),
    ];

    let mut config = todo_config(EncodingMode::FailFast);
    match search_files(&config, &files) {
        Err(SearchError::EncodingError { path, .. }) => assert_eq!(path, unify_path(&invalid_path)),
        other => panic!("Expected EncodingError, got: {:?}", other),
    }

    config.ignore_patterns = vec!["invalid.rs".to_string()];
    let result = search_files(&config, &files).unwrap();
    assert_eq!(result.total_matches, 2, "Expected matches in both valid files");
    assert_eq!(result.files_with_matches, 2, "Expected matches in both valid files");
}

#[test]
fn test_utf8_handling_lossy() {
    let files = vec![(
        in_root("mixed.rs"),
        [b"// TODO: first task\n"[..].to_vec(), vec![0xFF, 0xFF], b"\n// TODO: second task".to_vec()].concat(),
    )];
    let result = search_files(&todo_config(EncodingMode::Lossy), &files).unwrap();
    assert_eq!(result.total_matches, 2, "Expected both TODOs to be found");
    assert_eq!(result.files_with_matches, 1, "Expected matches in the mixed file");
}

#[test]
fn test_utf8_large_file_performance() {
    let mut large_content = String::with_capacity(11 * 1024 * 1024);
    for i in 0..100_000 {
        if i % 1000 == 0 {
            large_content.push_str("// TODO: test this\n");
        }
        large_content.push_str("// Some normal comment with unicode: función μ π\n");
    }
    let files = vec![(in_root("large.rs"), large_content.into_bytes())];
    for mode in [EncodingMode::FailFast, EncodingMode::Lossy] {
        let start = std::time::Instant::now();
        let result = search_files(&todo_config(mode), &files).unwrap();
        let duration = start.elapsed();
        assert_eq!(result.total_matches, 100, "Expected 100 TODOs");
        assert!(duration.as_secs_f64() < 6.0, "Search took too long: {:?}", duration);
    }
}

#[test]
fn test_utf8_mixed_files() {
    let files = vec![
        (in_root("valid1.rs"), b"// TODO: test this".to_vec()),
        (in_root("valid2.rs"), "// TODO: test función".as_bytes().to_vec()),
        (in_root("invalid.rs"), [b"// TODO: "[..].to_vec(), vec![0xFF], b" test".to_vec()].concat()),
    ];
    assert!(search_files(&todo_config(EncodingMode::FailFast), &files).is_err(), "Expected error in fail-fast mode");

    let result = search_files(&todo_config(EncodingMode::Lossy), &files).unwrap();
    assert_eq!(result.total_matches, 3, "Expected matches in all files");
    assert_eq!(result.files_with_matches, 3, "Expected all files to have matches");
}

#[test]
fn invalid_regex_is_an_invalid_pattern_error() {
    let mut config = SearchConfig::new_with_pattern("[invalid".to_string(), true, WordBoundaryMode::NoBoundary);
    config.root_path = ROOT.to_string();
    match search_files(&config, &test_files(1, 1)) {
        Err(SearchError::InvalidPattern(m)) => assert!(m.starts_with("Invalid regex pattern: ")),
        other => panic!("Expected InvalidPattern, got: {:?}", other),
    }
    assert!(check_definitions(&vec![definition("TODO", false), definition("a(b", true)]).is_err());
    assert!(check_definitions(&vec![definition("TODO", false), definition(r"\d+", true)]).is_ok());
}
