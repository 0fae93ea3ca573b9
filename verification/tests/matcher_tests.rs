use rustscout::boundary::{HyphenMode, WordBoundaryMode};
use rustscout::matcher::{PatternCache, PatternDefinition, PatternMatcher};
use rustscout::metrics::MemoryMetrics;

#[test]
fn test_pattern_cache_with_boundaries() {
    let mut cache = PatternCache::new();
    let mut metrics = MemoryMetrics::new();

    let pattern1 = PatternDefinition {
        text: "test_cache_boundary_unique123".to_string(),
        is_regex: false,
        boundary_mode: WordBoundaryMode::WholeWords,
        hyphen_mode: HyphenMode::default(),
    };
    let _matcher1 = PatternMatcher::with_metrics(vec![pattern1.clone()], &mut metrics, &mut cache);
    assert_eq!(metrics.get_stats().cache_misses, 1, "First creation should have one cache miss");

    let _matcher2 = PatternMatcher::with_metrics(vec![pattern1.clone()], &mut metrics, &mut cache);
    assert_eq!(metrics.get_stats().cache_misses, 1, "Second creation should hit cache");

    let pattern2 = PatternDefinition {
        text: "test_cache_boundary_unique123".to_string(),
        is_regex: false,
        boundary_mode: WordBoundaryMode::NoBoundary,
        hyphen_mode: HyphenMode::default(),
    };
    let _matcher3 = PatternMatcher::with_metrics(vec![pattern2], &mut metrics, &mut cache);
    assert_eq!(metrics.get_stats().cache_misses, 2, "Different boundary mode should cause cache miss");
}

#[test]
fn test_unicode_word_boundaries() {
    let mut metrics = MemoryMetrics::new();
    let mut cache = PatternCache::new();

    // Define all possible mode combinations
    let modes = vec![
        (WordBoundaryMode::WholeWords, HyphenMode::Boundary),
        (WordBoundaryMode::WholeWords, HyphenMode::Joining),
        (WordBoundaryMode::NoBoundary, HyphenMode::Boundary),
        (WordBoundaryMode::NoBoundary, HyphenMode::Joining),
        (WordBoundaryMode::Partial, HyphenMode::Boundary),
        (WordBoundaryMode::Partial, HyphenMode::Joining),
    ];

    // Test cases: (text, pattern, expected_matches_whole_word_boundary, expected_matches_whole_word_joining,
    //             expected_matches_none_boundary, expected_matches_none_joining,
    //             expected_matches_partial_boundary, expected_matches_partial_joining, comment)
    let test_cases = vec![
        // 1. Latin script with diacritics
        (
            "I love café food",
            "café",
            1,
            1,
            1,
            1,
            1,
            1,
            "Basic Latin with diacritics - standalone word",
        ),
        (
            "I love café-bar food",
            "café",
            1,
            0,
            1,
            1,
            1,
            0,
            "Latin with hyphen - matches depend on hyphen mode",
        ),
        (
            "I love cafébar food",
            "café",
            0,
            0,
            1,
            1,
            1,
            1,
            "Latin without boundary - only matches in None/Partial mode",
        ),
        // 2. Cyrillic script
        (
            "Привет мир",
            "Привет",
            1,
            1,
            1,
            1,
            1,
            1,
            "Cyrillic standalone word",
        ),
        (
            "приветствие мир",
            "привет",
            0,
            0,
            1,
            1,
            1,
            1,
            "Cyrillic as substring - only matches in None/Partial mode",
        ),
        (
            "привет-мир",
            "привет",
            1,
            0,
            1,
            1,
            1,
            0,
            "Cyrillic with hyphen - matches depend on hyphen mode",
        ),
        // 3. CJK characters
        ("你好 世界", "你好", 1, 1, 1, 1, 1, 1, "CJK standalone word"),
        (
            "你好吗 世界",
            "你好",
            0,
            0,
            1,
            1,
            1,
            1,
            "CJK as part of longer word - only matches in None/Partial mode",
        ),
        (
            "你好-世界",
            "你好",
            1,
            0,
            1,
            1,
            1,
            0,
            "CJK with hyphen - matches depend on hyphen mode",
        ),
        // 4. Korean Hangul
        (
            "안녕 세상",
            "안녕",
            1,
            1,
            1,
            1,
            1,
            1,
            "Korean standalone word",
        ),
        (
            "안녕하세요 세상",
            "안녕",
            0,
            0,
            1,
            1,
            1,
            1,
            "Korean as part of longer word - only matches in None/Partial mode",
        ),
        (
            "안녕-세상",
            "안녕",
            1,
            0,
            1,
            1,
            1,
            0,
            "Korean with hyphen - matches depend on hyphen mode",
        ),
        // 5. Mixed scripts and identifiers
        (
            "hello_世界 test",
            "hello_世界",
            1,
            1,
            1,
            1,
            1,
            1,
            "Mixed script identifier - full match",
        ),
        (
            "hello_世界 test",
            "hello",
            0,
            0,
            1,
            1,
            1,
            1,
            "Mixed script identifier - partial match only in None/Partial mode",
        ),
        (
            "test_café_안녕 example",
            "test_café_안녕",
            1,
            1,
            1,
            1,
            1,
            1,
            "Complex mixed script identifier",
        ),
        // 6. Right-to-left scripts
        (
            "שלום עולם",
            "שלום",
            1,
            1,
            1,
            1,
            1,
            1,
            "Hebrew standalone word",
        ),
        (
            "שלוםעולם",
            "שלום",
            0,
            0,
            1,
            1,
            1,
            1,
            "Hebrew as part of word - only matches in None/Partial mode",
        ),
        (
            "مرحبا بالعالم",
            "مرحبا",
            1,
            1,
            1,
            1,
            1,
            1,
            "Arabic standalone word",
        ),
        // 7. Technical symbols and mathematical notation
        ("x + β = γ", "β", 1, 1, 1, 1, 1, 1, "Greek letter as symbol"),
        (
            "f(x) = ∑(i=0)",
            "∑",
            1,
            1,
            1,
            1,
            1,
            1,
            "Mathematical symbol",
        ),
        (
            "∑_total",
            "∑",
            1,
            0,
            1,
            1,
            1,
            0,
            "Symbol with underscore - matches depend on hyphen mode",
        ),
        // 8. Emoji and combined sequences
        ("Hello 👋 World", "👋", 1, 1, 1, 1, 1, 1, "Single emoji"),
        (
            "Family: 👨‍👩‍👧‍👦 here",
            "👨‍👩‍👧‍👦",
            1,
            1,
            1,
            1,
            1,
            1,
            "Combined emoji sequence",
        ),
        (
            "Nice 👍🏽 job",
            "👍🏽",
            1,
            1,
            1,
            1,
            1,
            1,
            "Emoji with skin tone modifier",
        ),
        // 9. Special cases and edge scenarios
        (
            "hello‑world",
            "hello",
            1,
            0,
            1,
            1,
            1,
            0,
            "Unicode hyphen (U+2011)",
        ),
        ("test_case", "test", 0, 0, 1, 1, 1, 1, "Underscore joining"),
        (
            "αβγ test",
            "αβγ",
            1,
            1,
            1,
            1,
            1,
            1,
            "Multiple Greek letters as one word",
        ),
    ];

    for (
        text,
        pattern,
        exp_whole_boundary,
        exp_whole_joining,
        exp_none_boundary,
        exp_none_joining,
        exp_partial_boundary,
        exp_partial_joining,
        comment,
    ) in test_cases
    {
        for (boundary_mode, hyphen_mode) in modes.iter() {
            let expected = match (boundary_mode, hyphen_mode) {
                (WordBoundaryMode::WholeWords, HyphenMode::Boundary) => exp_whole_boundary,
                (WordBoundaryMode::WholeWords, HyphenMode::Joining) => exp_whole_joining,
                (WordBoundaryMode::NoBoundary, HyphenMode::Boundary) => exp_none_boundary,
                (WordBoundaryMode::NoBoundary, HyphenMode::Joining) => exp_none_joining,
                (WordBoundaryMode::Partial, HyphenMode::Boundary) => exp_partial_boundary,
                (WordBoundaryMode::Partial, HyphenMode::Joining) => exp_partial_joining,
            };

            let matcher = PatternMatcher::with_metrics(
                vec![PatternDefinition {
                    text: pattern.to_string(),
                    is_regex: false,
                    boundary_mode: *boundary_mode,
                    hyphen_mode: *hyphen_mode,
                }],
                &mut metrics,
                &mut cache,
            );

            let matches = matcher.find_matches(text);
            assert_eq!(
                matches.len(),
                expected,
                "Failed for pattern '{}' in text '{}' with mode {:?}, hyphen_mode {:?}: {}",
                pattern,
                text,
                boundary_mode,
                hyphen_mode,
                comment
            );
        }
    }
}

#[test]
fn test_unicode_regex_boundaries() {
    let mut metrics = MemoryMetrics::new();
    let mut cache = PatternCache::new();

    // Test cases for regex patterns with Unicode
    let test_cases = vec![
        // Basic regex with Unicode
        (r"café\d+", "café123 test café456", 2), // Multiple matches
        (r"café\w+", "café_test caféBar", 2),    // Word chars
        (r"café\s+\w+", "café test café123", 2), // Space and word
        // Complex patterns
        (r"café[A-Za-z]+", "caféTest cafétest", 2), // Case variants
        (r"café\p{L}+", "caféTest caféКафе", 2),    // Unicode letters
        (r"café[\p{L}\d]+", "café123 caféТест", 2), // Mixed Unicode
        // Boundaries with Unicode categories
        (r"\p{L}+", "café test 测试", 3),          // All scripts
        (r"[\p{Han}]+", "测试 test café", 1),      // Chinese only
        (r"[\p{Cyrillic}]+", "тест test café", 1), // Cyrillic only
    ];

    for (pattern, text, expected_matches) in test_cases {
        let matcher = PatternMatcher::with_metrics(
            vec![PatternDefinition {
                text: pattern.to_string(),
                is_regex: true,
                boundary_mode: WordBoundaryMode::WholeWords,
                hyphen_mode: HyphenMode::default(),
            }],
            &mut metrics,
                &mut cache,
        );

        let matches = matcher.find_matches(text);
        assert_eq!(
            matches.len(),
            expected_matches,
            "Failed for regex '{}' in text '{}': expected {} matches, got {}",
            pattern,
            text,
            expected_matches,
            matches.len()
        );
    }
}

#[test]
fn test_strict_word_boundaries() {
    let mut metrics = MemoryMetrics::new();
    let mut cache = PatternCache::new();

    // Test cases for strict word boundaries
    let test_cases = vec![
        // Basic word boundary cases
        ("YOLO test", "YOLO", 1, "Simple word boundary"),
        ("YOLOYOLO", "YOLO", 0, "Repeated pattern - no match"),
        ("YOLOYOLOYOLO", "YOLO", 0, "Multiple repeats - no match"),
        ("YOLO-YOLO", "YOLO", 2, "Hyphenated repeats - matches both"),
        ("YOLO_YOLO", "YOLO", 0, "Underscore joined - no match"),
        ("YOLODONE", "YOLO", 0, "Partial word - no match"),
        ("DONEYOLO", "YOLO", 0, "Partial word at end - no match"),
        ("YOLO YOLO", "YOLO", 2, "Space separated - matches both"),
        ("YOLO\nYOLO", "YOLO", 2, "Newline separated - matches both"),
        ("YOLO,YOLO", "YOLO", 2, "Comma separated - matches both"),
        // Edge cases for repeated sequences
        (
            "YOLOYOLOYOLO YOLO",
            "YOLO",
            1,
            "Last YOLO in repeated sequence should not match even with space after",
        ),
        (
            "YOLO YOLOYOLOYOLO",
            "YOLO",
            1,
            "First standalone YOLO should match, none in repeated sequence",
        ),
        (
            "YOLOYOLO YOLOYOLO",
            "YOLO",
            0,
            "No matches when all YOLOs are part of repeated sequences",
        ),
        (
            "YOLOYOLOYOLO YOLO YOLOYOLOYOLO",
            "YOLO",
            1,
            "Only standalone YOLO should match",
        ),
        (
            "YOLOYOLO YOLO YOLOYOLO",
            "YOLO",
            1,
            "Middle standalone YOLO should match",
        ),
        // Complex edge cases
        (
            "YOLOYOLOYOLO,YOLO",
            "YOLO",
            1,
            "Comma after repeated sequence - last YOLO should match",
        ),
        (
            "YOLOYOLOYOLO\nYOLO",
            "YOLO",
            1,
            "Newline after repeated sequence - last YOLO should match",
        ),
        (
            "YOLOYOLOYOLO YOLO!",
            "YOLO",
            1,
            "Punctuation after standalone YOLO",
        ),
        (
            "(YOLOYOLOYOLO) YOLO",
            "YOLO",
            1,
            "Parentheses around repeated sequence",
        ),
    ];

    for (text, pattern, expected_matches, comment) in test_cases {
        let matcher = PatternMatcher::with_metrics(
            vec![PatternDefinition {
                text: pattern.to_string(),
                is_regex: false,
                boundary_mode: WordBoundaryMode::WholeWords,
                hyphen_mode: HyphenMode::Boundary,
            }],
            &mut metrics,
                &mut cache,
        );

        let matches = matcher.find_matches(text);
        assert_eq!(
            matches.len(),
            expected_matches,
            "Failed for pattern '{}' in text '{}': {}",
            pattern,
            text,
            comment
        );
    }
}

#[test]
fn test_partial_word_boundaries() {
    let mut metrics = MemoryMetrics::new();
    let mut cache = PatternCache::new();

    // Test cases for partial word boundaries
    let test_cases = vec![
        // Basic word boundary cases
        ("YOLO test", "YOLO", 1, "Simple word boundary"),
        ("YOLOYOLO", "YOLO", 2, "Repeated pattern - matches both"),
        ("YOLOYOLOYOLO", "YOLO", 3, "Multiple repeats - matches all"),
        ("YOLO-YOLO", "YOLO", 2, "Hyphenated repeats - matches both"),
        (
            "YOLO_YOLO",
            "YOLO",
            2,
            "Underscore joined - matches both in partial mode",
        ),
        ("YOLODONE", "YOLO", 1, "Partial word - matches"),
        ("DONEYOLO", "YOLO", 1, "Partial word at end - matches"),
        ("YOLO YOLO", "YOLO", 2, "Space separated - matches both"),
        ("YOLO\nYOLO", "YOLO", 2, "Newline separated - matches both"),
        ("YOLO,YOLO", "YOLO", 2, "Comma separated - matches both"),
        // Complex cases
        (
            "YOLOinYOLO",
            "YOLO",
            2,
            "Camel case separation - matches both",
        ),
        (
            "YOLOYOLODONE",
            "YOLO",
            2,
            "Multiple matches with trailing text",
        ),
        (
            "PREFIXYOLOinYOLOSUFFIX",
            "YOLO",
            2,
            "Embedded in larger word",
        ),
    ];

    for (text, pattern, expected_matches, comment) in test_cases {
        let matcher = PatternMatcher::with_metrics(
            vec![PatternDefinition {
                text: pattern.to_string(),
                is_regex: false,
                boundary_mode: WordBoundaryMode::Partial,
                hyphen_mode: HyphenMode::Boundary,
            }],
            &mut metrics,
                &mut cache,
        );

        let matches = matcher.find_matches(text);
        assert_eq!(
            matches.len(),
            expected_matches,
            "Failed for pattern '{}' in text '{}': {}",
            pattern,
            text,
            comment
        );
    }
}

#[test]
fn test_partial_vs_whole_word() {
    let mut metrics = MemoryMetrics::new();
    let mut cache = PatternCache::new();

    // Test cases: (text, pattern, expected_whole_words, expected_partial)
    let test_cases = vec![
        // Basic cases
        (
            "YOLO YOLOYOLO",
            "YOLO",
            1,
            3,
            "One whole word and two partial matches",
        ),
        (
            "YOLOYOLO",
            "YOLO",
            0,
            2,
            "No whole words but two partial matches",
        ),
        (
            "YOLO-YOLO-YOLOYOLO",
            "YOLO",
            2,
            4,
            "Two hyphenated whole words plus two partial matches",
        ),
        (
            "YOLOinYOLO",
            "YOLO",
            0,
            2,
            "Camel case - no whole words but two partial matches",
        ),
        (
            "YOLO_YOLO_YOLOYOLO",
            "YOLO",
            0,
            4,
            "Underscore separated - no whole words but four partial matches",
        ),
        // Edge cases
        ("YOLO", "YOLO", 1, 1, "Single word matches both modes"),
        (
            "YOLO YOLO",
            "YOLO",
            2,
            2,
            "Space separated matches both modes",
        ),
        (
            "PRE_YOLO_POST",
            "YOLO",
            0,
            1,
            "Embedded in identifier - only partial mode matches",
        ),
    ];

    for (text, pattern, expected_whole_words, expected_partial, comment) in test_cases {
        // Test WholeWords mode
        let whole_words_matcher = PatternMatcher::with_metrics(
            vec![PatternDefinition {
                text: pattern.to_string(),
                is_regex: false,
                boundary_mode: WordBoundaryMode::WholeWords,
                hyphen_mode: HyphenMode::Boundary,
            }],
            &mut metrics,
                &mut cache,
        );

        // Test Partial mode
        let partial_matcher = PatternMatcher::with_metrics(
            vec![PatternDefinition {
                text: pattern.to_string(),
                is_regex: false,
                boundary_mode: WordBoundaryMode::Partial,
                hyphen_mode: HyphenMode::Boundary,
            }],
            &mut metrics,
                &mut cache,
        );

        let whole_words_matches = whole_words_matcher.find_matches(text);
        let partial_matches = partial_matcher.find_matches(text);

        assert_eq!(
            whole_words_matches.len(),
            expected_whole_words,
            "WholeWords mode failed for pattern '{}' in text '{}': {}",
            pattern,
            text,
            comment
        );

        assert_eq!(
            partial_matches.len(),
            expected_partial,
            "Partial mode failed for pattern '{}' in text '{}': {}",
            pattern,
            text,
            comment
        );
    }
}

#[test]
fn test_regex_boundary_handling() {
    let mut metrics = MemoryMetrics::new();
    let mut cache = PatternCache::new();

    // Test cases: (pattern, is_regex, boundary_mode, text, expected_matches, comment)
    let test_cases = vec![
        // User-supplied boundary tokens should be respected
        (
            r"\bYOLO\b",
            true,
            WordBoundaryMode::WholeWords,
            "YOLO test",
            1,
            "Explicit boundary tokens respected",
        ),
        (
            r"\bYOLO\b",
            true,
            WordBoundaryMode::NoBoundary,
            "YOLO test",
            1,
            "Boundary tokens respected even in None mode",
        ),
        // Complex regex patterns should not get auto-wrapped
        (
            r"(YOLO)+",
            true,
            WordBoundaryMode::WholeWords,
            "YOLOYOLO test",
            1,
            "Group not wrapped with boundaries",
        ),
        (
            r"YOLO|FOMO",
            true,
            WordBoundaryMode::WholeWords,
            "YOLO test FOMO",
            2,
            "Alternation not wrapped",
        ),
        (
            r"(?:YOLO){2}",
            true,
            WordBoundaryMode::WholeWords,
            "YOLOYOLO test",
            1,
            "Non-capturing group not wrapped",
        ),
        // Partial mode should not add boundaries
        (
            r"YOLO",
            true,
            WordBoundaryMode::Partial,
            "YOLOYOLO",
            2,
            "Partial mode allows internal matches",
        ),
        // Edge cases
        (
            r"\BYOLO",
            true,
            WordBoundaryMode::WholeWords,
            "testYOLO",
            1,
            "Custom boundary token \\B respected",
        ),
        (
            r"^\w+YOLO$",
            true,
            WordBoundaryMode::WholeWords,
            "testYOLO",
            1,
            "Start/end anchors respected",
        ),
        (
            r"\<YOLO\>",
            true,
            WordBoundaryMode::WholeWords,
            "YOLO test",
            1,
            "Word boundary alternatives respected",
        ),
    ];

    for (pattern, is_regex, boundary_mode, text, expected_matches, comment) in test_cases {
        let matcher = PatternMatcher::with_metrics(
            vec![PatternDefinition {
                text: pattern.to_string(),
                is_regex,
                boundary_mode,
                hyphen_mode: HyphenMode::default(),
            }],
            &mut metrics,
                &mut cache,
        );

        let matches = matcher.find_matches(text);
        assert_eq!(
            matches.len(),
            expected_matches,
            "Failed for pattern '{}' with boundary_mode {:?}: {}",
            pattern,
            boundary_mode,
            comment
        );
    }
}

#[test]
fn fallible_constructors_refuse_bad_regexes() {
    assert!(PatternMatcher::try_new(vec!["TODO".to_string(), "a.b".to_string()]).is_some());
    // A literal that is not simple is used as a regex, and this one does not compile.
    assert!(PatternMatcher::try_new(vec!["TODO".to_string(), "a(b".to_string()]).is_none());
    let good = PatternDefinition::new(r"fn\s+\w+".to_string(), true, WordBoundaryMode::NoBoundary);
    let m = PatternMatcher::try_from_definitions(vec![good]).unwrap();
    assert_eq!(m.find_matches("x fn main"), vec![(2, 9)]);
    let bad = PatternDefinition::new("a(b".to_string(), true, WordBoundaryMode::NoBoundary);
    assert!(PatternMatcher::try_from_definitions(vec![bad]).is_none());
}

#[test]
fn underscores_join_words_in_both_hyphen_modes() {
    for hyphen_mode in [HyphenMode::Joining, HyphenMode::Boundary] {
        let def = PatternDefinition {
            text: "test".to_string(),
            is_regex: false,
            boundary_mode: WordBoundaryMode::WholeWords,
            hyphen_mode,
        };
        let m = PatternMatcher::from_definitions(vec![def]);
        assert!(m.find_matches("test_case").is_empty());
        assert!(m.find_matches("my_test_case").is_empty());
        assert_eq!(m.find_matches("a test here"), vec![(2, 6)]);
    }
}

#[test]
fn regex_and_literal_spans_come_sorted_on_char_boundaries() {
    let defs = vec![
        PatternDefinition::new("é".to_string(), true, WordBoundaryMode::NoBoundary),
        PatternDefinition::new("x".to_string(), false, WordBoundaryMode::NoBoundary),
    ];
    let m = PatternMatcher::from_definitions(defs);
    assert_eq!(m.find_matches("é x é"), vec![(0, 2), (3, 4), (5, 7)]);
}
