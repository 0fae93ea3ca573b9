use rustscout::diff::{generate_file_diff, side_by_side_lines, unified_diff_lines};
use rustscout::undo::{
    is_undo_record_name, order_by_timestamp, revert_content, select_hunks, DiffHunk, UndoFileReference,
};

fn file_ref() -> UndoFileReference {
    UndoFileReference { rel_path: "src/a.rs".to_string(), abs_path: None }
}

#[test]
fn diff_of_one_changed_line() {
    let d = generate_file_diff("a\nb\nc\n", "a\nB\nc\n", file_ref()).unwrap();
    assert_eq!(d.file_path.rel_path, "src/a.rs");
    assert_eq!(d.hunks.len(), 1);
    let h = &d.hunks[0];
    assert_eq!(h.original_lines, vec!["b".to_string()]);
    assert_eq!(h.new_lines, vec!["B".to_string()]);
    assert_eq!(h.original_start_line, 2);
    assert_eq!(h.new_start_line, 2);
}

#[test]
fn diff_of_equal_texts_is_empty() {
    let d = generate_file_diff("same\n", "same\r\n", file_ref()).unwrap();
    assert!(d.hunks.is_empty());
}

#[test]
fn reverting_the_diff_restores_the_original() {
    let old = "fn a() {}\nfn b() {}\nfn c() {}";
    let new = "fn a() {}\nfn bb() {}\nfn c() {}\nfn d() {}";
    let d = generate_file_diff(old, new, file_ref()).unwrap();
    assert!(!d.hunks.is_empty());
    assert_eq!(revert_content(new, &d.hunks).unwrap(), old);
}

#[test]
fn reverting_selected_hunks_only() {
    let old = "1\n2\n3\n4\n5\n6\n7\n8\n9\n10";
    let new = "1\nTWO\n3\n4\n5\n6\n7\n8\nNINE\n10";
    let d = generate_file_diff(old, new, file_ref()).unwrap();
    assert_eq!(d.hunks.len(), 2);
    let first = select_hunks(&d.hunks, &[0]);
    assert_eq!(first.len(), 1);
    assert_eq!(revert_content(new, &first).unwrap(), "1\n2\n3\n4\n5\n6\n7\n8\nNINE\n10");
    let both = select_hunks(&d.hunks, &[1, 0, 7]);
    assert_eq!(revert_content(new, &both).unwrap(), old);
}

#[test]
fn hunk_past_the_end_cannot_be_reverted() {
    let h = DiffHunk {
        original_start_line: 9,
        new_start_line: 9,
        original_line_count: 1,
        new_line_count: 1,
        original_lines: vec!["x".to_string()],
        new_lines: vec!["y".to_string()],
    };
    assert!(revert_content("a\nb", &vec![h]).is_none());
}

#[test]
fn file_reference_display() {
    let r = UndoFileReference { rel_path: "a.rs".to_string(), abs_path: Some("/w/a.rs".to_string()) };
    assert_eq!(r.display(), "/w/a.rs");
    assert_eq!(file_ref().display(), "src/a.rs");
}

#[test]
fn restore_targets() {
    let with_abs = UndoFileReference { rel_path: "src/a.rs".to_string(), abs_path: Some("/w/src/a.rs".to_string()) };
    assert_eq!(with_abs.restore_target(true, "/root"), "/w/src/a.rs");
    assert_eq!(with_abs.restore_target(false, "/root"), "/root/src/a.rs");
    assert_eq!(file_ref().restore_target(true, "/root/"), "/root/src/a.rs");
}

#[test]
fn backup_names_flatten_the_path() {
    assert_eq!(rustscout::plan::backup_file_name("crate_a/src\\lib.rs", 1737267859), "crate_a_src_lib.rs.1737267859");
}

#[test]
fn undo_records_sum_backup_sizes() {
    let config = rustscout::replace::ReplacementConfig::default();
    let info = rustscout::cli::build_undo_info(
        42,
        &config,
        vec![(file_ref(), file_ref()), (file_ref(), file_ref())],
        &vec![10, 32],
        vec![],
    );
    assert_eq!(info.timestamp, 42);
    assert_eq!(info.description, "Replacement operation at 42");
    assert_eq!(info.total_size, 42);
    assert_eq!(info.file_count, 2);
    assert!(!info.dry_run);
    assert!(info.file_diffs.is_empty());
}

#[test]
fn undo_records_are_json_files() {
    assert!(is_undo_record_name("1700000000.json"));
    assert!(is_undo_record_name("a.json"));
    assert!(!is_undo_record_name(".json"));
    assert!(!is_undo_record_name("1700000000.json.bak"));
    assert!(!is_undo_record_name("notes.txt"));
    assert!(!is_undo_record_name("json"));
}

#[test]
fn undo_records_listed_oldest_first() {
    assert_eq!(order_by_timestamp(&vec![30, 10, 20]), vec![1, 2, 0]);
    // Records with the same timestamp keep the order in which they were found.
    assert_eq!(order_by_timestamp(&vec![5, 3, 5, 3]), vec![1, 3, 0, 2]);
    assert!(order_by_timestamp(&vec![]).is_empty());
}

#[test]
fn reverting_recorded_hunks_gives_back_the_earlier_lines() {
    let strings = |v: &[&str]| v.iter().map(|s| s.to_string()).collect::<Vec<String>>();
    // "b" became "X", "Y" at line 2, and "d" (after "c") was removed.
    let replaced = DiffHunk {
        original_start_line: 2,
        new_start_line: 2,
        original_line_count: 1,
        new_line_count: 2,
        original_lines: strings(&["b"]),
        new_lines: strings(&["X", "Y"]),
    };
    let removed = DiffHunk {
        original_start_line: 4,
        new_start_line: 5,
        original_line_count: 1,
        new_line_count: 0,
        original_lines: strings(&["d"]),
        new_lines: vec![],
    };
    assert_eq!(revert_content("a\nX\nY\nc", &vec![replaced, removed]), Some("a\nb\nc\nd".to_string()));
}

#[test]
fn reverting_keeps_the_final_newline() {
    let d = generate_file_diff("a\n", "b\n", file_ref()).unwrap();
    assert_eq!(revert_content("b\n", &d.hunks), Some("a\n".to_string()));
    let d = generate_file_diff("x\ny\nz\n", "x\nY\nz\n", file_ref()).unwrap();
    assert_eq!(revert_content("x\nY\nz\n", &d.hunks), Some("x\ny\nz\n".to_string()));
    let d = generate_file_diff("a", "b", file_ref()).unwrap();
    assert_eq!(revert_content("b", &d.hunks), Some("a".to_string()));
}

#[test]
fn reverting_a_diff_gives_back_the_old_text() {
    let cases = [
        ("a\nb\nc\n", "b\n"),
        ("a\nb\nc\nd\n", "a\nX\nY\nb\nc\n"),
        ("keep  \nold line\t\n", "keep  \nnew line\n"),
        ("x\n", "x\ny\nz\n"),
        ("1\n2\n3\n4\n5\n6\n7\n8\n9\n10\n", "1\n2\nA\n4\n5\n6\n7\n8\nB\n10\n"),
    ];
    for (old, new) in cases {
        let d = generate_file_diff(old, new, file_ref()).unwrap();
        assert_eq!(revert_content(new, &d.hunks), Some(old.to_string()), "old {:?} new {:?}", old, new);
    }
}

#[test]
fn unified_diff_pieces() {
    let pieces = unified_diff_lines("f.txt", "a\nb\nc\n", "a\nB\nc\n");
    assert_eq!(
        pieces,
        vec!["--- f.txt\n", "+++ f.txt\n", "@@ -1,3 +1,3 @@\n", " a\n", "-b\n", "+B\n", " c\n"]
    );
    // A group that begins with an insertion shows old start 1.
    let pieces = unified_diff_lines("g", "", "x\n");
    assert_eq!(pieces, vec!["--- g\n", "+++ g\n", "@@ -1,0 +1,1 @@\n", "+x\n"]);
    assert_eq!(unified_diff_lines("h", "same\n", "same\n"), vec!["--- h\n", "+++ h\n"]);
}

#[test]
fn side_by_side_shows_differing_lines() {
    let rows = side_by_side_lines("a\nb\nc", "a\nX\nc\nd");
    assert_eq!(
        rows,
        vec![(2, "b".to_string(), "X".to_string()), (4, String::new(), "d".to_string())]
    );
}

#[test]
fn undo_reference_paths_and_partial_reverts() {
    assert_eq!(rustscout::undo::reference_rel_path("/w/src/a.rs", "src/a.rs", "/w"), "src/a.rs");
    assert_eq!(rustscout::undo::reference_rel_path("/x/a.rs", "/w/b/a.rs", "/w"), "b/a.rs");
    assert_eq!(rustscout::undo::reference_rel_path("/x/a.rs", "/y/a.rs", "/w"), "a.rs");
    let mut info = rustscout::undo::UndoInfo {
        timestamp: 1,
        description: String::new(),
        backups: vec![],
        total_size: 0,
        file_count: 0,
        dry_run: false,
        file_diffs: vec![],
    };
    assert!(rustscout::undo::check_partial_revert(&info).is_err());
    info.file_diffs.push(generate_file_diff("a\n", "b\n", file_ref()).unwrap());
    assert!(rustscout::undo::check_partial_revert(&info).is_ok());
}
