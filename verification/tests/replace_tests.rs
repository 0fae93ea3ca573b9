use rustscout::boundary::{HyphenMode, WordBoundaryMode};
use rustscout::errors::SearchError;
use rustscout::matcher::PatternDefinition;
use rustscout::plan::{apply_replacements, plan_for_ranges, FileReplacementPlan, ProcessingStrategy, ReplacementSet};
use rustscout::replace::{check_group_refs, ReplacementConfig, ReplacementPattern, ReplacementTask};

fn create_pattern_def(text: &str, is_regex: bool) -> PatternDefinition {
    PatternDefinition {
        text: text.to_string(),
        is_regex,
        boundary_mode: WordBoundaryMode::NoBoundary,
        hyphen_mode: HyphenMode::default(),
    }
}

fn config_with(text: &str, is_regex: bool, replacement: &str) -> ReplacementConfig {
    ReplacementConfig {
        patterns: vec![ReplacementPattern {
            definition: create_pattern_def(text, is_regex),
            replacement_text: replacement.to_string(),
        }],
        backup_enabled: false,
        dry_run: false,
        backup_dir: None,
        preserve_metadata: false,
        undo_dir: "undo".to_string(),
    }
}

#[test]
fn test_replacement_config_merge() {
    let mut base_config = ReplacementConfig {
        patterns: vec![ReplacementPattern {
            definition: create_pattern_def("old", false),
            replacement_text: "new".to_string(),
        }],
        backup_enabled: false,
        dry_run: false,
        backup_dir: None,
        preserve_metadata: false,
        undo_dir: "undo".to_string(),
    };
    let cli_config = ReplacementConfig {
        patterns: vec![ReplacementPattern {
            definition: create_pattern_def("cli_pattern", false),
            replacement_text: "cli_replacement".to_string(),
        }],
        backup_enabled: true,
        dry_run: true,
        backup_dir: Some("backup".to_string()),
        preserve_metadata: true,
        undo_dir: "cli_undo".to_string(),
    };

    base_config.merge_with_cli(cli_config);

    assert_eq!(base_config.patterns[0].definition.text, "cli_pattern");
    assert_eq!(base_config.patterns[0].replacement_text, "cli_replacement");
    assert!(base_config.backup_enabled);
    assert!(base_config.dry_run);
    assert_eq!(base_config.backup_dir, Some("backup".to_string()));
    assert!(base_config.preserve_metadata);
    assert_eq!(base_config.undo_dir, "undo");
}

#[test]
fn default_replacement_config() {
    let c = ReplacementConfig::default();
    assert!(c.patterns.is_empty());
    assert!(c.backup_enabled);
    assert!(!c.dry_run);
    assert!(c.backup_dir.is_none());
    assert!(c.preserve_metadata);
    assert_eq!(c.undo_dir, ".rustscout/undo");
}

#[test]
fn literal_task_replaces_every_occurrence() {
    let task = ReplacementTask::new("f.txt".to_string(), (0, 3), "bar".to_string(), 0, config_with("foo", false, "bar"));
    assert_eq!(task.apply("foo x foo").unwrap(), "bar x bar");
}

#[test]
fn regex_task_expands_groups() {
    let task = ReplacementTask::new(
        "f.rs".to_string(),
        (0, 1),
        "x".to_string(),
        0,
        config_with(r"fn (\w+)\(\)", true, "fn new_$1()"),
    );
    assert_eq!(task.apply("fn test() {}").unwrap(), "fn new_test() {}");
}

#[test]
fn task_without_patterns_is_invalid() {
    let mut config = config_with("a", false, "b");
    config.patterns.clear();
    let task = ReplacementTask::new("f".to_string(), (0, 1), "b".to_string(), 0, config);
    match task.validate() {
        Err(SearchError::InvalidPattern(m)) => assert_eq!(m, "Pattern cannot be empty"),
        other => panic!("unexpected {:?}", other),
    }
}

#[test]
fn missing_capture_group_is_reported() {
    let task = ReplacementTask::new("f".to_string(), (0, 1), "b".to_string(), 0, config_with(r"(a)", true, "$2"));
    match task.validate() {
        Err(SearchError::InvalidPattern(m)) => assert_eq!(m, "Capture group $2 does not exist"),
        other => panic!("unexpected {:?}", other),
    }
}

#[test]
fn whole_word_regex_needs_markers() {
    let mut config = config_with("abc", true, "x");
    config.patterns[0].definition.boundary_mode = WordBoundaryMode::WholeWords;
    let task = ReplacementTask::new("f".to_string(), (0, 1), "x".to_string(), 0, config);
    match task.validate() {
        Err(SearchError::InvalidPattern(m)) => {
            assert_eq!(m, "Pattern must have word boundary markers (\\b) when word boundary mode is enabled")
        }
        other => panic!("unexpected {:?}", other),
    }
}

#[test]
fn invalid_regex_is_reported() {
    let task = ReplacementTask::new("f".to_string(), (0, 1), "x".to_string(), 0, config_with("(", true, "x"));
    assert!(matches!(task.validate(), Err(SearchError::InvalidPattern(_))));
}

#[test]
fn plan_keeps_tasks_sorted_and_rejects_overlap() {
    let config = config_with("b", false, "X");
    let mut plan = FileReplacementPlan::new("f.txt".to_string(), Some(10)).unwrap();
    plan.add_replacement(ReplacementTask::new("f.txt".to_string(), (4, 5), "X".to_string(), 0, config.clone())).unwrap();
    plan.add_replacement(ReplacementTask::new("f.txt".to_string(), (1, 2), "X".to_string(), 0, config.clone())).unwrap();
    assert_eq!(plan.replacements[0].original_range, (1, 2));
    assert_eq!(plan.replacements[1].original_range, (4, 5));
    match plan.add_replacement(ReplacementTask::new("f.txt".to_string(), (1, 3), "X".to_string(), 0, config.clone())) {
        Err(SearchError::ConfigError(m)) => assert_eq!(m, "Overlapping replacements are not allowed"),
        other => panic!("unexpected {:?}", other),
    }
    assert_eq!(plan.replacements.len(), 2);
    assert_eq!(plan.apply_in_memory("abcdbf").unwrap(), "aXcdXf");
    assert_eq!(plan.strategy(), ProcessingStrategy::InMemory);
}

#[test]
fn plan_for_ranges_builds_or_refuses() {
    let config = config_with("b", false, "X");
    let plan = plan_for_ranges(&"f".to_string(), &vec![(4, 5), (1, 2)], &"X".to_string(), &config, None).unwrap();
    assert_eq!(plan.replacements.len(), 2);
    assert_eq!(plan.replacements[0].original_range, (1, 2));
    assert_eq!(plan.replacements[1].original_range, (4, 5));
    assert_eq!(plan.apply_in_memory("abcdbf").unwrap(), "aXcdXf");

    match plan_for_ranges(&"f".to_string(), &vec![(0, 3), (2, 4)], &"X".to_string(), &config, None) {
        Err(SearchError::ConfigError(m)) => assert_eq!(m, "Overlapping replacements are not allowed"),
        other => panic!("unexpected {:?}", other),
    }
    let mut empty = config.clone();
    empty.patterns.clear();
    assert!(matches!(
        plan_for_ranges(&"f".to_string(), &vec![(0, 1)], &"X".to_string(), &empty, None),
        Err(SearchError::InvalidPattern(_))
    ));
    assert!(plan_for_ranges(&"f".to_string(), &vec![], &"X".to_string(), &empty, None).is_ok());
}

#[test]
fn apply_replacements_uses_byte_offsets() {
    let config = config_with("é", false, "e");
    let tasks = vec![ReplacementTask::new("f".to_string(), (1, 3), "e".to_string(), 0, config.clone())];
    assert_eq!(apply_replacements("céa", &tasks).unwrap(), "cea");
    // A range that ends inside a character cannot be replaced.
    let bad = vec![ReplacementTask::new("f".to_string(), (1, 2), "e".to_string(), 0, config)];
    assert!(apply_replacements("céa", &bad).is_none());
}

#[test]
fn processing_strategy_by_size() {
    assert_eq!(ProcessingStrategy::for_file_size(10), ProcessingStrategy::InMemory);
    assert_eq!(ProcessingStrategy::for_file_size(100 * 1024), ProcessingStrategy::Streaming);
    assert_eq!(ProcessingStrategy::for_file_size(20 * 1024 * 1024), ProcessingStrategy::MemoryMapped);
}

#[test]
fn preview_lists_changed_lines() {
    let config = config_with("b", false, "X");
    let plan = plan_for_ranges(&"f".to_string(), &vec![(6, 7)], &"X".to_string(), &config, None).unwrap();
    let preview = plan.preview("aaa\nbbb\nccc").unwrap();
    assert_eq!(preview.len(), 1);
    assert_eq!(preview[0].original_lines, vec!["bbb".to_string()]);
    assert_eq!(preview[0].new_lines, vec!["bbX".to_string()]);
    assert_eq!(preview[0].line_numbers, vec![2]);
    let (old, new) = plan.preview_old_new("aaa\nbbb\nccc").unwrap();
    assert_eq!(old, "aaa\nbbb\nccc");
    assert_eq!(new, "aaa\nbbX\nccc");
    // The range lies past the end of this content.
    assert!(matches!(plan.preview_old_new("abc b"), Err(SearchError::ConfigError(_))));
}

#[test]
fn preview_old_new_is_what_apply_writes() {
    let config = config_with("a", false, "aa");
    let plan = plan_for_ranges(&"f".to_string(), &vec![(0, 1)], &"aa".to_string(), &config, None).unwrap();
    let (old, new) = plan.preview_old_new("a a").unwrap();
    assert_eq!(old, "a a");
    assert_eq!(new, "aa a");
    assert_eq!(plan.apply_in_memory("a a"), Some("aa a".to_string()));
}

#[test]
fn empty_patterns_are_rejected() {
    let config = config_with("", false, "test");
    let task = ReplacementTask::new("f".to_string(), (0, 0), "test".to_string(), 0, config);
    match task.validate() {
        Err(SearchError::InvalidPattern(m)) => assert_eq!(m, "Pattern cannot be empty"),
        other => panic!("unexpected {:?}", other),
    }
    assert!(task.apply("abc").is_err());
}

#[test]
fn group_references_are_checked_against_the_group_count() {
    assert!(check_group_refs(&vec!["1".to_string()], 2).is_ok());
    match check_group_refs(&vec!["1".to_string(), "2".to_string()], 2) {
        Err(SearchError::InvalidPattern(m)) => assert_eq!(m, "Capture group $2 does not exist"),
        other => panic!("unexpected {:?}", other),
    }
}

#[test]
fn replacement_set_collects_plans() {
    let mut set = ReplacementSet::new(config_with("a", false, "b"));
    assert!(set.plans.is_empty());
    set.add_plan(FileReplacementPlan::new("x".to_string(), None).unwrap());
    assert_eq!(set.plans.len(), 1);
    assert_eq!(set.get_metrics().get_stats().cache_hits, 0);
}

#[test]
fn ordered_ranges_are_replaced_at_once() {
    let config = config_with("a", false, "ZZ");
    let plan = plan_for_ranges(&"f".to_string(), &vec![(0, 1), (2, 3), (4, 5)], &"ZZ".to_string(), &config, None).unwrap();
    let (_, new) = plan.preview_old_new("a a a").unwrap();
    assert_eq!(new, "ZZ ZZ ZZ");
    assert_eq!(plan.apply_in_memory("a a a"), Some(new));
}

#[test]
fn test_invalid_capture_group() {
    let config = config_with(r"(\w+)", true, "$2");
    let task = ReplacementTask::new("test.txt".to_string(), (0, 4), "$2".to_string(), 0, config);
    assert!(task.validate().is_err(), "Expected an error due to invalid capture group reference");
}

#[test]
fn test_overlapping_replacements() {
    let config = config_with("test", false, "replaced");
    let mut plan = FileReplacementPlan::new("test.txt".to_string(), Some(12)).unwrap();
    let result1 =
        plan.add_replacement(ReplacementTask::new("test.txt".to_string(), (0, 6), "replaced".to_string(), 0, config.clone()));
    assert!(result1.is_ok(), "First replacement should succeed");
    let result2 = plan.add_replacement(ReplacementTask::new("test.txt".to_string(), (4, 8), "new".to_string(), 0, config));
    assert!(result2.is_err(), "Expected an error due to overlapping replacements");
}

#[test]
fn test_regex_replacement() {
    let content = "fn test_func() {}";
    let config = config_with(r"fn (\w+)\(\)", true, "fn new_$1()");
    let mut plan = FileReplacementPlan::new("test.txt".to_string(), Some(content.len() as u64)).unwrap();
    plan.add_replacement(ReplacementTask::new("test.txt".to_string(), (0, 14), "fn new_test_func()".to_string(), 0, config))
        .unwrap();
    assert_eq!(plan.apply_in_memory(content), Some("fn new_test_func() {}".to_string()));
}

#[test]
fn test_processing_strategies() {
    let small = "small test content";
    let medium = "medium test content\n".repeat(2000);
    let large = "large test content\n".repeat(1_000_000);
    assert!(matches!(ProcessingStrategy::for_file_size(small.len() as u64), ProcessingStrategy::InMemory));
    assert!(matches!(ProcessingStrategy::for_file_size(medium.len() as u64), ProcessingStrategy::Streaming));
    assert!(matches!(ProcessingStrategy::for_file_size(large.len() as u64), ProcessingStrategy::MemoryMapped));
}

#[test]
fn backups_go_to_the_backup_directory() {
    let (dir, path) = rustscout::plan::backup_location("/w/src/a.rs", "/w", &None, 7);
    assert_eq!(dir, "/w/.rustscout/backups");
    assert_eq!(path, "/w/.rustscout/backups/src_a.rs.7");
    let (dir, path) = rustscout::plan::backup_location("/other/a.rs", "/w", &Some("/bk".to_string()), 8);
    assert_eq!(dir, "/bk");
    assert_eq!(path, "/bk/_other_a.rs.8");
}
