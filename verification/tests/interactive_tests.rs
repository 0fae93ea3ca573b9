use rustscout::interactive::{convert_key_event, short_path, KeyCode, KeyEvent, LoopStep, Navigator, PromptAction};

fn key(code: KeyCode) -> KeyEvent {
    KeyEvent { code, control: false }
}

#[test]
fn test_short_path() {
    let workspace_root = "/home/user/project";
    let file_path = "/home/user/project/src/main.rs";
    assert_eq!(short_path(file_path, workspace_root, false), "src/main.rs");
    assert_eq!(short_path(file_path, workspace_root, true), "/home/user/project/src/main.rs");
    assert_eq!(short_path("/tmp/other/file.rs", workspace_root, false), "/tmp/other/file.rs");
    assert_eq!(short_path(workspace_root, workspace_root, false), "");
    let nested_workspace = "/home/user/project/packages/lib";
    let nested_file = "/home/user/project/packages/lib/src/lib.rs";
    assert_eq!(short_path(nested_file, nested_workspace, false), "src/lib.rs");
}

#[test]
fn test_prompt_actions() {
    assert_eq!(convert_key_event(&key(KeyCode::Left)), PromptAction::Previous);
    assert_eq!(convert_key_event(&key(KeyCode::Right)), PromptAction::Next);
    assert_eq!(convert_key_event(&key(KeyCode::Up)), PromptAction::Previous);
    assert_eq!(convert_key_event(&key(KeyCode::Down)), PromptAction::Next);
    assert_eq!(convert_key_event(&key(KeyCode::Enter)), PromptAction::Next);
    assert_eq!(convert_key_event(&key(KeyCode::Char('n'))), PromptAction::Next);
    assert_eq!(convert_key_event(&key(KeyCode::Char('p'))), PromptAction::Previous);
    assert_eq!(convert_key_event(&key(KeyCode::Char('f'))), PromptAction::SkipFile);
    assert_eq!(convert_key_event(&key(KeyCode::Char('a'))), PromptAction::SkipAll);
    assert_eq!(convert_key_event(&key(KeyCode::Char('q'))), PromptAction::Quit);
    assert_eq!(convert_key_event(&key(KeyCode::Char('e'))), PromptAction::Editor);
    assert_eq!(convert_key_event(&key(KeyCode::Char('N'))), PromptAction::Next);
    assert_eq!(convert_key_event(&key(KeyCode::Char('P'))), PromptAction::Previous);
    assert_eq!(convert_key_event(&key(KeyCode::Char('F'))), PromptAction::SkipFile);
    assert_eq!(convert_key_event(&key(KeyCode::Char('A'))), PromptAction::SkipAll);
    assert_eq!(convert_key_event(&key(KeyCode::Char('Q'))), PromptAction::Quit);
    assert_eq!(convert_key_event(&key(KeyCode::Char('E'))), PromptAction::Editor);
    assert_eq!(convert_key_event(&key(KeyCode::Esc)), PromptAction::Quit);
    assert_eq!(
        convert_key_event(&KeyEvent { code: KeyCode::Char('c'), control: true }),
        PromptAction::Quit
    );
    assert_eq!(convert_key_event(&key(KeyCode::Char('x'))), PromptAction::Unknown);
}

#[test]
fn navigator_wraps_around() {
    assert!(Navigator::new(vec![]).is_none());
    let mut nav = Navigator::new(vec!["a".to_string(), "b".to_string()]).unwrap();
    assert_eq!(nav.apply(PromptAction::Previous), LoopStep::Continue);
    assert_eq!(nav.current_index(), 1);
    assert_eq!(nav.apply(PromptAction::Next), LoopStep::Continue);
    assert_eq!(nav.current_index(), 0);
    assert_eq!(nav.apply(PromptAction::Editor), LoopStep::Edit);
    assert_eq!(nav.apply(PromptAction::Quit), LoopStep::Stop);
}

#[test]
fn navigator_counts_visits_and_skips() {
    let files = vec!["a.rs".to_string(), "a.rs".to_string(), "b.rs".to_string(), "c.rs".to_string()];
    let mut nav = Navigator::new(files).unwrap();
    nav.show_current();
    nav.show_current();
    assert_eq!(nav.get_stats().matches_visited, 1);
    // Skipping a.rs marks its second match and moves to b.rs.
    assert_eq!(nav.apply(PromptAction::SkipFile), LoopStep::Continue);
    assert_eq!(nav.current_index(), 2);
    let s = nav.get_stats();
    assert_eq!(s.matches_skipped, 1);
    assert_eq!(s.files_skipped, 1);
    nav.show_current();
    // Skipping everything marks the one match left unseen (c.rs).
    assert_eq!(nav.apply(PromptAction::SkipAll), LoopStep::Stop);
    let s = nav.get_stats();
    assert_eq!(s.matches_visited, 2);
    assert_eq!(s.matches_skipped, 2);
    assert_eq!(s.total_matches, 4);
    assert_eq!(s.matches_visited + s.matches_skipped, s.total_matches);
}

#[test]
fn skipping_the_only_file_stops() {
    let mut nav = Navigator::new(vec!["a".to_string(), "a".to_string()]).unwrap();
    assert_eq!(nav.apply(PromptAction::SkipFile), LoopStep::Stop);
    assert_eq!(nav.current_index(), 0);
    assert_eq!(nav.get_stats().matches_skipped, 2);
}
