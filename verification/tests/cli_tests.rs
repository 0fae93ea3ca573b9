use rustscout::boundary::{HyphenMode, WordBoundaryMode};
use rustscout::cli::{
    absolute_match_range, all_hunk_indices, decide_undo, hunk_range_text, line_offsets, parse_extensions,
    parse_hunk_choices, parse_hunk_indices, parse_undo_id, preview_hunks, search_definitions, undo_description,
    UndoPlan, UndoRequest,
};
use rustscout::errors::SearchError;
use rustscout::matcher::PatternDefinition;
use rustscout::replace::{ReplacementConfig, ReplacementPattern};
use rustscout::undo::DiffHunk;

fn request(hunks: Option<&str>) -> UndoRequest {
    UndoRequest {
        id: "1".to_string(),
        list_hunks: false,
        hunks: hunks.map(|h| h.to_string()),
        preview: false,
        interactive: false,
        force: false,
    }
}

#[test]
fn undo_id_parsing() {
    assert_eq!(parse_undo_id("1700000000").unwrap(), 1700000000);
    match parse_undo_id("12x") {
        Err(SearchError::ConfigError(m)) => assert_eq!(m, "Invalid undo ID: invalid digit found in string"),
        other => panic!("unexpected {:?}", other),
    }
    match parse_undo_id("") {
        Err(SearchError::ConfigError(m)) => assert_eq!(m, "Invalid undo ID: cannot parse integer from empty string"),
        other => panic!("unexpected {:?}", other),
    }
    match parse_undo_id("99999999999999999999") {
        Err(SearchError::ConfigError(m)) => assert_eq!(m, "Invalid undo ID: number too large to fit in target type"),
        other => panic!("unexpected {:?}", other),
    }
}

#[test]
fn hunk_index_lists() {
    assert_eq!(parse_hunk_indices("0, 2,5").unwrap(), vec![0, 2, 5]);
    match parse_hunk_indices("1, x ,3") {
        Err(SearchError::ConfigError(m)) => assert_eq!(m, "Invalid hunk index: x"),
        other => panic!("unexpected {:?}", other),
    }
    assert_eq!(all_hunk_indices(3), vec![0, 1, 2]);
}

#[test]
fn undo_decisions() {
    let mut req = request(Some("1"));
    match decide_undo(&req, false, 0) {
        Err(SearchError::ConfigError(m)) => assert_eq!(
            m,
            "This undo operation only supports full-file backups; partial revert is not possible."
        ),
        other => panic!("unexpected {:?}", other),
    }
    req.hunks = None;
    assert!(matches!(decide_undo(&req, false, 0), Ok(UndoPlan::RevertFull)));
    req.preview = true;
    assert!(matches!(decide_undo(&req, false, 0), Ok(UndoPlan::PreviewFull)));
    match decide_undo(&req, true, 3) {
        Ok(UndoPlan::PreviewHunks(v)) => assert_eq!(v, vec![0, 1, 2]),
        other => panic!("unexpected {:?}", other),
    }
    req.list_hunks = true;
    assert!(matches!(decide_undo(&req, true, 3), Ok(UndoPlan::ListHunks { with_lines: true })));
    let mut req = request(Some("2,0"));
    match decide_undo(&req, true, 3) {
        Ok(UndoPlan::RevertHunks { indices, confirm }) => {
            assert_eq!(indices, vec![2, 0]);
            assert!(confirm);
        }
        other => panic!("unexpected {:?}", other),
    }
    req.hunks = None;
    req.interactive = true;
    assert!(matches!(decide_undo(&req, true, 3), Ok(UndoPlan::Interactive)));
}

#[test]
fn interactive_hunk_choices() {
    let (chosen, ignored) = parse_hunk_choices("3, 1, 9, x, 1", 4);
    assert_eq!(chosen, vec![1, 3]);
    assert_eq!(ignored, vec!["9".to_string(), "x".to_string()]);
    let (chosen, _) = parse_hunk_choices("", 3);
    assert_eq!(chosen, vec![0, 1, 2]);
}

#[test]
fn hunk_range_texts() {
    assert_eq!(hunk_range_text(7, 1), "line 7");
    assert_eq!(hunk_range_text(3, 4), "lines 3–6");
}

#[test]
fn search_definitions_from_options() {
    let defs = search_definitions(
        &vec!["foo".to_string(), "ba+r".to_string()],
        &vec![false, true],
        "partial",
        false,
        "boundary",
    )
    .unwrap();
    assert_eq!(defs.len(), 2);
    assert_eq!(defs[0].text, "foo");
    assert!(!defs[0].is_regex);
    assert!(defs[1].is_regex);
    assert_eq!(defs[1].boundary_mode, WordBoundaryMode::Partial);
    assert_eq!(defs[1].hyphen_mode, HyphenMode::Boundary);

    let defs = search_definitions(&vec!["x".to_string()], &vec![], "bogus", true, "joining").unwrap();
    assert_eq!(defs[0].boundary_mode, WordBoundaryMode::WholeWords);

    match search_definitions(&vec!["x".to_string()], &vec![], "bogus", false, "joining") {
        Err(SearchError::ConfigError(m)) => {
            assert_eq!(m, "Invalid boundary mode 'bogus'. Valid values are: strict, partial, none")
        }
        other => panic!("unexpected {:?}", other),
    }
    match search_definitions(&vec!["x".to_string()], &vec![], "none", false, "weird") {
        Err(SearchError::ConfigError(m)) => assert_eq!(m, "Invalid hyphen mode. Valid values are: boundary, joining"),
        other => panic!("unexpected {:?}", other),
    }
    assert!(search_definitions(&vec![], &vec![], "bogus", false, "weird").unwrap().is_empty());
}

#[test]
fn extension_lists_are_trimmed() {
    assert_eq!(parse_extensions("rs, toml ,md"), vec!["rs".to_string(), "toml".to_string(), "md".to_string()]);
}

#[test]
fn absolute_ranges_from_line_offsets() {
    let offsets = line_offsets("ab\ncde\nf");
    assert_eq!(offsets, vec![0, 3, 7, 8]);
    assert_eq!(absolute_match_range(&offsets, 2, 1, 3), Some((4, 6)));
    assert_eq!(absolute_match_range(&offsets, 0, 1, 3), None);
    assert_eq!(absolute_match_range(&offsets, 9, 1, 3), None);
}

#[test]
fn undo_descriptions() {
    let mut config = ReplacementConfig::default();
    assert_eq!(undo_description(&config, 42), "Replacement operation at 42");
    config.patterns.push(ReplacementPattern {
        definition: PatternDefinition {
            text: "old".to_string(),
            is_regex: false,
            boundary_mode: WordBoundaryMode::NoBoundary,
            hyphen_mode: HyphenMode::Joining,
        },
        replacement_text: "new".to_string(),
    });
    assert_eq!(undo_description(&config, 42), "Replace 'old' with 'new'");
}

#[test]
fn hunk_preview_puts_original_lines_back() {
    let hunk = DiffHunk {
        original_start_line: 2,
        new_start_line: 2,
        original_line_count: 1,
        new_line_count: 2,
        original_lines: vec!["b".to_string()],
        new_lines: vec!["B1".to_string(), "B2".to_string()],
    };
    let hunks = vec![hunk];
    assert_eq!(preview_hunks("a\nB1\nB2\nc", &hunks, &vec![0]), "a\nb\nc");
    // Indices past the hunks change nothing.
    assert_eq!(preview_hunks("a\nB1\nB2\nc", &hunks, &vec![5]), "a\nB1\nB2\nc");
}
