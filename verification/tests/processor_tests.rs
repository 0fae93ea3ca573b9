use rustscout::config::EncodingMode;
use rustscout::errors::SearchError;
use rustscout::matcher::PatternMatcher;
use rustscout::processor::{build_matches, decode_bytes, FileProcessor};

#[test]
fn decoding_by_mode() {
    assert_eq!(decode_bytes(b"abc", "f", EncodingMode::FailFast).unwrap(), "abc");
    match decode_bytes(&[0x61, 0xff], "f.txt", EncodingMode::FailFast) {
        Err(SearchError::EncodingError { path, message }) => {
            assert_eq!(path, "f.txt");
            assert!(!message.is_empty());
        }
        other => panic!("unexpected {:?}", other),
    }
    assert_eq!(decode_bytes(&[0x61, 0xff], "f", EncodingMode::Lossy).unwrap(), "a\u{FFFD}");
}

#[test]
fn matches_with_context() {
    let text = "zero\none foo\ntwo\nthree foo";
    let v = build_matches(text, &vec![(9, 12), (23, 26)], 1, 1).unwrap();
    assert_eq!(v.len(), 2);
    assert_eq!(v[0].line_number, 2);
    assert_eq!(v[0].line_content, "one foo");
    assert_eq!((v[0].start, v[0].end), (4, 7));
    assert_eq!(v[0].context_before, vec![(1, "zero".to_string())]);
    assert_eq!(v[0].context_after, vec![(3, "two".to_string())]);
    assert_eq!(v[1].line_number, 4);
    assert!(v[1].context_after.is_empty());
}

#[test]
fn processing_bytes_counts_and_matches() {
    let matcher = PatternMatcher::new(vec!["foo".to_string()]);
    let mut p = FileProcessor::new(matcher, 0, 0, EncodingMode::FailFast);
    let r = p.process_bytes("f.txt", b"a foo\nfoo b\n", Some(12)).unwrap().unwrap();
    assert_eq!(r.path, "f.txt");
    assert_eq!(r.matches.len(), 2);
    assert_eq!(r.matches[1].line_number, 2);
    assert_eq!(p.metrics().get_stats().small_files, 1);
    assert!(p.process_bytes("g.txt", &[0xff], None).is_err());
}
