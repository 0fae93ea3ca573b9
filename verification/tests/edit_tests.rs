use rustscout::edit::{
    interactive_undo_info, parse_answer, parse_yes, view_action, EditAction, EditMode, EditSession, EditStep,
    ReplaceAnswer,
};
use rustscout::interactive::{KeyCode, KeyEvent};
use rustscout::undo::UndoFileReference;

fn session(content: &str, line: usize) -> EditSession {
    EditSession::new("f.txt".to_string(), content, line, 0, 3)
}

fn undo() -> rustscout::undo::UndoInfo {
    interactive_undo_info(
        7,
        "f.txt",
        UndoFileReference { rel_path: "f.txt".to_string(), abs_path: None },
        UndoFileReference { rel_path: ".rustscout/undo/7.bak".to_string(), abs_path: None },
        12,
    )
}

#[test]
fn view_keys() {
    let k = |code| KeyEvent { code, control: false };
    assert_eq!(view_action(&k(KeyCode::Up)), EditAction::MovePrev);
    assert_eq!(view_action(&k(KeyCode::Down)), EditAction::MoveNext);
    assert_eq!(view_action(&k(KeyCode::Enter)), EditAction::StartEdit);
    assert_eq!(view_action(&k(KeyCode::Char('R'))), EditAction::StartReplace);
    assert_eq!(view_action(&k(KeyCode::Char('s'))), EditAction::Save);
    assert_eq!(view_action(&KeyEvent { code: KeyCode::Char('c'), control: true }), EditAction::Cancel);
    assert_eq!(view_action(&k(KeyCode::Esc)), EditAction::Cancel);
    assert_eq!(view_action(&k(KeyCode::Char('z'))), EditAction::Unknown);
}

#[test]
fn session_starts_at_the_match() {
    let s = session("a\nb\nc", 2);
    assert_eq!(s.current_line(), 1);
    assert_eq!(s.lines().len(), 3);
    assert_eq!(s.mode(), EditMode::View);
    assert!(!s.is_modified());
    assert_eq!(s.match_range(), (1, 0, 3));
    assert_eq!(s.file_path(), "f.txt");
    assert_eq!(session("a", 0).current_line(), 0);
}

#[test]
fn cursor_moves_within_the_file() {
    let mut s = session("a\nb\nc", 1);
    assert_eq!(s.apply_view_action(EditAction::MovePrev), EditStep::Continue);
    assert_eq!(s.current_line(), 0);
    s.apply_view_action(EditAction::MoveNext);
    s.apply_view_action(EditAction::MoveNext);
    s.apply_view_action(EditAction::MoveNext);
    assert_eq!(s.current_line(), 2);
    assert_eq!(s.apply_view_action(EditAction::StartEdit), EditStep::Continue);
    assert_eq!(s.mode(), EditMode::LineEdit);
    assert_eq!(s.apply_view_action(EditAction::Save), EditStep::Finish(false));
    assert_eq!(s.apply_view_action(EditAction::Cancel), EditStep::Finish(false));
}

#[test]
fn editing_a_line_keeps_the_first_undo_record() {
    let mut s = session("one\ntwo", 2);
    assert!(!s.needs_backup("  two  "));
    s.edit_line("  two  ", None);
    assert!(!s.is_modified());
    assert!(s.needs_backup("deux"));
    s.edit_line(" deux\n", Some(undo()));
    assert!(s.is_modified());
    assert_eq!(s.mode(), EditMode::View);
    assert_eq!(s.lines()[1], "deux");
    assert_eq!(s.undo_info().as_ref().unwrap().timestamp, 7);
    assert!(!s.needs_backup("zwei"));
    let mut other = undo();
    other.timestamp = 8;
    s.edit_line("zwei", Some(other));
    assert_eq!(s.undo_info().as_ref().unwrap().timestamp, 7);
    assert_eq!(s.content(), "one\nzwei");
    assert_eq!(s.apply_view_action(EditAction::Save), EditStep::SaveAndFinish);
}

#[test]
fn replacing_with_and_without_confirmation() {
    let mut s = session("foo a\nbar\nfoo b\nfoo c", 1);
    assert!(s.line_contains(0, "foo"));
    assert!(!s.line_contains(1, "foo"));
    assert_eq!(s.replaced_line(0, "foo", "X"), "X a");
    s.replace_lines("foo", "X", true, &vec![ReplaceAnswer::No, ReplaceAnswer::All]);
    assert_eq!(s.content(), "foo a\nbar\nX b\nX c");
    assert!(s.is_modified());

    let mut t = session("foo\nfoo", 1);
    t.replace_lines("foo", "Y", true, &vec![ReplaceAnswer::Yes]);
    assert_eq!(t.content(), "Y\nfoo");

    let mut u = session("foo\nfoo", 1);
    u.replace_lines("foo", "Z", false, &vec![]);
    assert_eq!(u.content(), "Z\nZ");

    let mut v = session("abc", 1);
    v.replace_lines("q", "Z", false, &vec![]);
    assert!(!v.is_modified());
}

#[test]
fn answers() {
    assert!(parse_yes(" Yes\n"));
    assert!(!parse_yes("no"));
    assert!(!parse_yes(""));
    assert_eq!(parse_answer("a\n"), ReplaceAnswer::All);
    assert_eq!(parse_answer(" A "), ReplaceAnswer::All);
    assert_eq!(parse_answer("y"), ReplaceAnswer::Yes);
    assert_eq!(parse_answer("all"), ReplaceAnswer::No);
    assert_eq!(parse_answer(""), ReplaceAnswer::No);
}

#[test]
fn window_around_cursor() {
    let text = (1..=20).map(|i| i.to_string()).collect::<Vec<_>>().join("\n");
    assert_eq!(session(&text, 10).window(), (4, 15));
    assert_eq!(session(&text, 2).window(), (0, 7));
    assert_eq!(session(&text, 19).window(), (13, 20));
}

#[test]
fn undo_record_of_an_edit() {
    let u = undo();
    assert_eq!(u.description, "Interactive edit in file: f.txt");
    assert_eq!(u.backups.len(), 1);
    assert_eq!(u.file_count, 1);
    assert_eq!(u.total_size, 12);
    assert!(!u.dry_run);
    assert!(u.file_diffs.is_empty());
}
