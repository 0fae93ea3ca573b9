use rustscout::boundary::{HyphenMode, WordBoundaryMode};
use rustscout::cache::ChangeDetectionStrategy;
use rustscout::config::{EncodingMode, SearchConfig};
use rustscout::matcher::PatternDefinition;

#[test]
fn test_default_values() {
    let config = SearchConfig::default();
    assert!(config.pattern_definitions.is_empty());
    assert!(config.patterns.is_empty());
    assert!(config.pattern.is_empty());
    assert_eq!(config.root_path, ".");
    assert!(config.file_extensions.is_none());
    assert!(config.ignore_patterns.is_empty());
    assert!(!config.stats_only);
    assert_eq!(config.thread_count, 4);
    assert_eq!(config.log_level, "info");
    assert_eq!(config.context_before, 0);
    assert_eq!(config.context_after, 0);
    assert!(!config.incremental);
    assert!(config.cache_path.is_none());
    assert_eq!(config.cache_strategy, ChangeDetectionStrategy::Auto);
    assert!(config.max_cache_size.is_none());
    assert!(!config.use_compression);
    assert_eq!(config.encoding_mode, EncodingMode::FailFast);
}

#[test]
fn test_new_with_pattern() {
    let config = SearchConfig::new_with_pattern("test".to_string(), false, WordBoundaryMode::WholeWords);
    assert_eq!(config.pattern_definitions.len(), 1);
    assert_eq!(config.pattern_definitions[0].text, "test");
    assert!(!config.pattern_definitions[0].is_regex);
    assert_eq!(config.pattern_definitions[0].boundary_mode, WordBoundaryMode::WholeWords);
}

#[test]
fn test_get_pattern_definitions() {
    let mut config = SearchConfig::default();
    config.pattern_definitions.push(PatternDefinition {
        text: "test1".to_string(),
        is_regex: false,
        boundary_mode: WordBoundaryMode::WholeWords,
        hyphen_mode: HyphenMode::default(),
    });
    config.patterns = vec!["test2".to_string(), "test3".to_string()];
    config.pattern = "test4".to_string();

    let defs = config.get_pattern_definitions();
    assert_eq!(defs.len(), 4);
    assert_eq!(defs[0].text, "test1");
    assert_eq!(defs[0].boundary_mode, WordBoundaryMode::WholeWords);
    assert_eq!(defs[1].text, "test2");
    assert_eq!(defs[1].boundary_mode, WordBoundaryMode::NoBoundary);
    assert_eq!(defs[2].text, "test3");
    assert_eq!(defs[2].boundary_mode, WordBoundaryMode::NoBoundary);
    assert_eq!(defs[3].text, "test4");
    assert_eq!(defs[3].boundary_mode, WordBoundaryMode::NoBoundary);
}

#[test]
fn test_merge_with_cli() {
    let mut config = SearchConfig::default();
    let mut cli = SearchConfig::default();
    cli.pattern_definitions.push(PatternDefinition {
        text: "test1".to_string(),
        is_regex: false,
        boundary_mode: WordBoundaryMode::WholeWords,
        hyphen_mode: HyphenMode::default(),
    });
    cli.root_path = "/search".to_string();
    cli.stats_only = true;

    config.merge_with_cli(&cli);

    assert_eq!(config.pattern_definitions.len(), 1);
    assert_eq!(config.pattern_definitions[0].text, "test1");
    assert_eq!(config.pattern_definitions[0].boundary_mode, WordBoundaryMode::WholeWords);
    assert_eq!(config.root_path, "/search");
    assert!(config.stats_only);
}

#[test]
fn cache_path_defaults_under_root() {
    let mut config = SearchConfig::default();
    config.root_path = "proj".to_string();
    assert_eq!(config.get_cache_path(), "proj/.rustscout/cache.json");
    config.cache_path = Some("elsewhere.json".to_string());
    assert_eq!(config.get_cache_path(), "elsewhere.json");
}

#[test]
fn legacy_pattern_ignored_when_empty() {
    let mut config = SearchConfig::default();
    config.patterns = vec!["a".to_string()];
    let defs = config.get_pattern_definitions();
    assert_eq!(defs.len(), 1);
    assert_eq!(defs[0].text, "a");
    assert!(!defs[0].is_regex);
    assert_eq!(defs[0].hyphen_mode, HyphenMode::Joining);
}

#[test]
fn rtrace_config_builders() {
    let c = rustscout::rtrace::Config::new("TODO".to_string(), "src".to_string())
        .with_thread_count(3)
        .with_ignore_patterns(vec!["target".to_string()])
        .with_stats_only(true)
        .with_file_extensions(vec!["rs".to_string()]);
    assert_eq!(c.pattern, "TODO");
    assert_eq!(c.root_path, "src");
    assert_eq!(c.thread_count, 3);
    assert_eq!(c.ignore_patterns, vec!["target".to_string()]);
    assert!(c.stats_only);
    assert_eq!(c.file_extensions, Some(vec!["rs".to_string()]));
}
