use rustscout::cache::{
    create_detector, ChangeDetectionStrategy, ChangeStatus, Detector, FileCacheEntry, FileChangeInfo, FileSignature,
    FileSignatureDetector, GitStatusDetector,
};
use rustscout::config::EncodingMode;
use rustscout::engine::{assemble_output, collect_results, plan_incremental, reversed, store_fresh, CacheTable};
use rustscout::errors::SearchError;
use rustscout::results::{FileResult, Match};

fn sig(size: u64) -> FileSignature {
    FileSignature { mtime_secs: 1, mtime_nanos: 0, size, hash: None }
}

fn one_match(line: usize) -> Match {
    Match {
        line_number: line,
        line_content: "x".to_string(),
        start: 0,
        end: 1,
        context_before: vec![],
        context_after: vec![],
    }
}

fn entry_with_results(n: usize) -> FileCacheEntry {
    let mut e = FileCacheEntry::new(sig(3), 5);
    e.search_results = Some((1..=n).map(one_match).collect());
    e
}

#[test]
fn cache_entries_count_accesses() {
    let mut e = FileCacheEntry::new(sig(10), 100);
    assert!(e.search_results.is_none());
    assert_eq!(e.access_count, 0);
    assert_eq!(e.last_accessed, 100);
    e.mark_accessed(200);
    assert_eq!(e.access_count, 1);
    assert_eq!(e.last_accessed, 200);
    assert_eq!(e.signature, sig(10));
}

#[test]
fn table_insert_find_remove() {
    let mut t = CacheTable::new();
    t.insert("a/b.rs".to_string(), FileCacheEntry::new(sig(1), 0));
    t.insert("c.rs".to_string(), FileCacheEntry::new(sig(2), 0));
    assert_eq!(t.find("a//b.rs"), Some(0));
    assert_eq!(t.find("c.rs/"), Some(1));
    assert_eq!(t.find("./c.rs"), None);
    assert_eq!(t.find("d.rs"), None);
    // Storing again under the same path replaces the entry.
    t.insert("a/b.rs".to_string(), FileCacheEntry::new(sig(9), 0));
    assert_eq!(t.find("c.rs"), Some(1));
    let e = t.remove("a/b.rs").unwrap();
    assert_eq!(e.signature, sig(9));
    assert!(t.remove("a/b.rs").is_none());
    assert_eq!(t.find("c.rs"), Some(0));
}

#[test]
fn incremental_planning_reuses_and_searches() {
    let mut t = CacheTable::new();
    t.insert("same.rs".to_string(), entry_with_results(2));
    t.insert("old.rs".to_string(), entry_with_results(1));
    t.insert("gone.rs".to_string(), entry_with_results(1));
    t.insert("bare.rs".to_string(), FileCacheEntry::new(sig(1), 0));
    let files = vec![
        "same.rs".to_string(),
        "new.rs".to_string(),
        "moved.rs".to_string(),
        "gone.rs".to_string(),
        "bare.rs".to_string(),
        "edited.rs".to_string(),
    ];
    let changes = vec![
        FileChangeInfo { path: "new.rs".to_string(), status: ChangeStatus::Added },
        FileChangeInfo { path: "moved.rs".to_string(), status: ChangeStatus::Renamed("old.rs".to_string()) },
        FileChangeInfo { path: "gone.rs".to_string(), status: ChangeStatus::Deleted },
        FileChangeInfo { path: "edited.rs".to_string(), status: ChangeStatus::Modified },
    ];
    let (to_search, reused, hits) = plan_incremental(&mut t, &files, &changes, 77);
    assert_eq!(to_search, vec!["new.rs".to_string(), "bare.rs".to_string(), "edited.rs".to_string()]);
    assert_eq!(reused.len(), 1);
    assert_eq!(reused[0].path, "same.rs");
    assert_eq!(reused[0].matches.len(), 2);
    assert_eq!(hits, 2);
    // The reused entry was marked, the renamed one moved, the deleted one dropped.
    assert!(t.find("same.rs").is_some());
    assert!(t.find("old.rs").is_none());
    assert!(t.find("moved.rs").is_some());
    assert!(t.find("gone.rs").is_none());
    let e = t.remove("same.rs").unwrap();
    assert_eq!(e.access_count, 1);
    assert_eq!(e.last_accessed, 77);
}

#[test]
fn collecting_results_by_mode() {
    let outcomes = || {
        vec![
            Ok(FileResult { path: "a".to_string(), matches: vec![one_match(1)] }),
            Err(SearchError::IoError("boom".to_string())),
            Ok(FileResult { path: "b".to_string(), matches: vec![] }),
            Ok(FileResult { path: "c".to_string(), matches: vec![one_match(2)] }),
        ]
    };
    match collect_results(outcomes(), EncodingMode::FailFast) {
        Err(SearchError::IoError(m)) => assert_eq!(m, "boom"),
        other => panic!("unexpected {:?}", other),
    }
    let kept = collect_results(outcomes(), EncodingMode::Lossy).unwrap();
    assert_eq!(kept.iter().map(|f| f.path.clone()).collect::<Vec<_>>(), vec!["a".to_string(), "c".to_string()]);
}

#[test]
fn assembling_output_counts() {
    let first = vec![FileResult { path: "a".to_string(), matches: vec![one_match(1), one_match(2)] }];
    let second = vec![
        FileResult { path: "b".to_string(), matches: vec![] },
        FileResult { path: "c".to_string(), matches: vec![one_match(1)] },
    ];
    let out = assemble_output(first, second);
    assert_eq!(out.total_matches, 3);
    assert_eq!(out.files_searched, 3);
    assert_eq!(out.files_with_matches, 2);
    assert_eq!(out.file_results[2].path, "c");
}

#[test]
fn fresh_entries_have_no_results() {
    let mut t = CacheTable::new();
    t.insert("a".to_string(), entry_with_results(1));
    store_fresh(&mut t, &vec!["a".to_string(), "b".to_string()], vec![sig(4), sig(5)], 9);
    let a = t.remove("a").unwrap();
    assert!(a.search_results.is_none());
    assert_eq!(a.signature, sig(4));
    assert_eq!(a.last_accessed, 9);
    let b = t.remove("b").unwrap();
    assert_eq!(b.signature, sig(5));
}

#[test]
fn reversing() {
    assert_eq!(reversed(vec![1, 2, 3]), vec![3, 2, 1]);
    assert!(reversed(Vec::<u8>::new()).is_empty());
}

#[test]
fn signature_detector_marks_missing_files_deleted() {
    let d = FileSignatureDetector::new();
    let r = d.detect_changes(&vec!["a".to_string(), "b".to_string()], &vec![true, false]);
    assert_eq!(r[0].status, ChangeStatus::Modified);
    assert_eq!(r[1].status, ChangeStatus::Deleted);
    assert_eq!(r[1].path, "b");
}

#[test]
fn git_porcelain_output() {
    let d = GitStatusDetector::new("/repo".to_string());
    assert_eq!(d.git_dir(), "/repo/.git");
    let out = "?? new.rs\n M src/a.rs\nR  old.rs -> src/b.rs\nD  gone.rs\nx\n";
    let r = d.detect_changes(out, &vec!["/repo".to_string()]);
    assert_eq!(r.len(), 4);
    assert_eq!(r[0].path, "/repo/new.rs");
    assert_eq!(r[0].status, ChangeStatus::Added);
    assert_eq!(r[1].status, ChangeStatus::Modified);
    assert_eq!(r[2].status, ChangeStatus::Renamed("old.rs".to_string()));
    assert_eq!(r[3].status, ChangeStatus::Deleted);
    // A rename line names the whole "old -> new" text under the root.
    assert_eq!(r[2].path, "/repo/old.rs -> src/b.rs");
    let r = d.detect_changes(out, &vec!["/repo/src".to_string()]);
    assert_eq!(r.len(), 1);
    assert_eq!(r[0].path, "/repo/src/a.rs");
}

#[test]
fn detector_choice() {
    assert!(matches!(create_detector(ChangeDetectionStrategy::FileSignature, ".".to_string(), true), Detector::Signature(_)));
    assert!(matches!(create_detector(ChangeDetectionStrategy::GitStatus, ".".to_string(), false), Detector::Git(_)));
    assert!(matches!(create_detector(ChangeDetectionStrategy::Auto, ".".to_string(), true), Detector::Git(_)));
    assert!(matches!(create_detector(ChangeDetectionStrategy::Auto, ".".to_string(), false), Detector::Signature(_)));
}

#[test]
fn changed_files_are_never_served_from_the_cache() {
    let mut t = CacheTable::new();
    t.insert("a.rs".to_string(), entry_with_results(3));
    t.insert("b.rs".to_string(), entry_with_results(1));
    let files = vec!["a.rs".to_string(), "b.rs".to_string()];
    let changes = vec![FileChangeInfo { path: "a.rs".to_string(), status: ChangeStatus::Modified }];
    let (to_search, reused, hits) = plan_incremental(&mut t, &files, &changes, 9);
    assert_eq!(to_search, vec!["a.rs".to_string()]);
    assert_eq!(reused.len(), 1);
    assert_eq!(reused[0].path, "b.rs");
    assert_eq!(hits, 1);
}
