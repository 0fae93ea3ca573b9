use rustscout::results::{FileResult, Match, SearchResult};

fn m(line: usize, content: &str, start: usize, end: usize) -> Match {
    Match {
        line_number: line,
        line_content: content.to_string(),
        start,
        end,
        context_before: vec![],
        context_after: vec![],
    }
}

#[test]
fn test_match_creation() {
    let m = Match {
        line_number: 42,
        line_content: "Hello, world!".to_string(),
        start: 0,
        end: 5,
        context_before: vec![],
        context_after: vec![],
    };
    assert_eq!(m.line_number, 42);
    assert_eq!(m.line_content, "Hello, world!");
    assert_eq!(m.start, 0);
    assert_eq!(m.end, 5);
    assert_eq!(&m.line_content[m.start..m.end], "Hello");
}

#[test]
fn test_file_result_creation() {
    let matches = vec![m(1, "Hello", 0, 5), m(2, "World Hello", 6, 11)];
    let file_result = FileResult { path: "test.txt".to_string(), matches };
    assert_eq!(file_result.path, "test.txt");
    assert_eq!(file_result.matches.len(), 2);
    assert_eq!(file_result.matches[0].line_number, 1);
    assert_eq!(file_result.matches[1].line_number, 2);
}

#[test]
fn test_search_result_new() {
    let result = SearchResult::new();
    assert_eq!(result.total_matches, 0);
    assert_eq!(result.files_searched, 0);
    assert_eq!(result.files_with_matches, 0);
    assert!(result.file_results.is_empty());
}

#[test]
fn test_search_result_add_file_result() {
    let mut result = SearchResult::new();
    result.add_file_result(FileResult {
        path: "test1.txt".to_string(),
        matches: vec![m(1, "Hello", 0, 5), m(2, "Hello again", 0, 5)],
    });
    assert_eq!(result.total_matches, 2);
    assert_eq!(result.files_searched, 1);
    assert_eq!(result.files_with_matches, 1);

    result.add_file_result(FileResult { path: "test2.txt".to_string(), matches: vec![] });
    assert_eq!(result.total_matches, 2);
    assert_eq!(result.files_searched, 2);
    assert_eq!(result.files_with_matches, 1);
}

#[test]
fn test_search_result_merge() {
    let mut result1 = SearchResult::new();
    let mut result2 = SearchResult::new();
    result1.add_file_result(FileResult { path: "test1.txt".to_string(), matches: vec![m(1, "Hello", 0, 5)] });
    result2.add_file_result(FileResult {
        path: "test2.txt".to_string(),
        matches: vec![m(1, "World", 0, 5), m(2, "Hello", 0, 5)],
    });
    result2.add_file_result(FileResult { path: "test3.txt".to_string(), matches: vec![] });

    result1.merge(result2);

    assert_eq!(result1.total_matches, 3);
    assert_eq!(result1.files_searched, 3);
    assert_eq!(result1.files_with_matches, 2);
    assert_eq!(result1.file_results.len(), 3);
    assert!(result1.file_results.iter().any(|fr| fr.path == "test1.txt"));
    assert!(result1.file_results.iter().any(|fr| fr.path == "test2.txt"));
    assert!(result1.file_results.iter().any(|fr| fr.path == "test3.txt"));
}

#[test]
fn test_search_result_empty_merge() {
    let mut result1 = SearchResult::new();
    let result2 = SearchResult::new();
    result1.add_file_result(FileResult { path: "test.txt".to_string(), matches: vec![m(1, "Hello", 0, 5)] });
    let initial_matches = result1.total_matches;
    let initial_files = result1.files_searched;
    let initial_files_with_matches = result1.files_with_matches;
    result1.merge(result2);
    assert_eq!(result1.total_matches, initial_matches);
    assert_eq!(result1.files_searched, initial_files);
    assert_eq!(result1.files_with_matches, initial_files_with_matches);
}

#[test]
fn match_clone_keeps_fields() {
    let mut a = m(3, "abc", 1, 2);
    a.context_before.push((2, "before".to_string()));
    let b = a.clone();
    assert_eq!(b.line_number, 3);
    assert_eq!(b.line_content, "abc");
    assert_eq!((b.start, b.end), (1, 2));
    assert_eq!(b.context_before, vec![(2, "before".to_string())]);
    assert!(b.context_after.is_empty());
}
