use rustscout::render::{check_spans, context_plan, highlight_line, match_line_numbers, render_match_line, try_highlight_line};
use rustscout::results::Match;

fn m(line: usize, start: usize, end: usize) -> Match {
    Match {
        line_number: line,
        line_content: String::new(),
        start,
        end,
        context_before: vec![],
        context_after: vec![],
    }
}

#[test]
fn plan_without_context() {
    assert_eq!(context_plan(&vec![3, 1, 3], 5, 0, 0), vec![(1, true), (3, true)]);
}

#[test]
fn plan_with_context_around_matches() {
    assert_eq!(
        context_plan(&vec![5], 10, 2, 1),
        vec![(3, false), (4, false), (5, true), (6, false)]
    );
}

#[test]
fn context_is_clipped_to_the_file() {
    assert_eq!(context_plan(&vec![1, 3], 3, 2, 2), vec![(1, true), (2, false), (3, false)]);
}

#[test]
fn match_line_in_earlier_context_is_shown_as_context() {
    // Line 4 falls in the lines after line 3, so it is printed once, as context.
    assert_eq!(context_plan(&vec![3, 4], 6, 0, 1), vec![(3, true), (4, false), (5, false)]);
    // Before-context never hides a later match line.
    assert_eq!(context_plan(&vec![4, 5], 6, 1, 0), vec![(3, false), (4, true), (5, true)]);
}

#[test]
fn lines_outside_the_file_are_skipped() {
    assert!(context_plan(&vec![0, 9], 5, 1, 1).is_empty());
}

#[test]
fn highlighting() {
    let spans = vec![(0, 3), (4, 7)];
    assert_eq!(highlight_line("foo bar baz", &spans, false), "foo bar baz");
    assert_eq!(
        highlight_line("foo bar baz", &spans, true),
        "\x1b[1;31mfoo\x1b[0m \x1b[1;31mbar\x1b[0m baz"
    );
    // Byte offsets: é takes two bytes.
    assert_eq!(highlight_line("é-x", &vec![(3, 4)], true), "é-\x1b[1;31mx\x1b[0m");
}

#[test]
fn spans_that_do_not_fit_are_refused() {
    assert!(check_spans("abc", &vec![(0, 1), (1, 3)]));
    assert!(!check_spans("abc", &vec![(0, 2), (1, 3)]));
    assert!(!check_spans("abc", &vec![(2, 1)]));
    assert!(!check_spans("é", &vec![(1, 2)]));
    assert!(!check_spans("abc", &vec![(0, 4)]));
    assert!(try_highlight_line("abc", &vec![(0, 4)], false).is_none());
}

#[test]
fn match_lines_are_rendered_in_start_order() {
    let matches = vec![m(2, 4, 5), m(1, 0, 1), m(2, 0, 1)];
    assert_eq!(render_match_line("a b c", &matches, 2, true).unwrap(), "\x1b[1;31ma\x1b[0m b \x1b[1;31mc\x1b[0m");
    assert_eq!(match_line_numbers(&matches), vec![2, 1, 2]);
}
