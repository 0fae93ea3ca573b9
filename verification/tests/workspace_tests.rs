use rustscout::workspace::{init_decision, InitDecision};
use rustscout::workspace::{
    choose_workspace_root, is_accepted_format, workspace_candidates, workspace_config_name, GlobalConfig,
    WorkspaceMetadata,
};

#[test]
fn test_workspace_metadata() {
    let mut metadata = WorkspaceMetadata::new("/tmp/ws".to_string(), "json".to_string());
    metadata.global_config = Some(GlobalConfig {
        ignore_patterns: vec!["*.tmp".to_string()],
        default_extensions: Some(vec!["rs".to_string()]),
    });
    assert_eq!(metadata.version, "0.1.0");
    assert_eq!(metadata.root_path, "/tmp/ws");
    assert_eq!(metadata.format, "json");
    assert_eq!(metadata.global_config.as_ref().unwrap().ignore_patterns, vec!["*.tmp".to_string()]);
}

#[test]
fn config_names_and_formats() {
    assert_eq!(workspace_config_name("json"), "workspace.json");
    assert_eq!(workspace_config_name("YAML"), "workspace.yaml");
    assert_eq!(workspace_config_name("toml"), "workspace.json");
    assert!(is_accepted_format("Json"));
    assert!(is_accepted_format("yaml"));
    assert!(!is_accepted_format("toml"));
    let g = GlobalConfig::default();
    assert!(g.ignore_patterns.is_empty());
    assert!(g.default_extensions.is_none());
}

#[test]
fn candidates_walk_upward() {
    assert_eq!(
        workspace_candidates("/a/b/c"),
        vec!["/a/b/c".to_string(), "/a/b".to_string(), "/a".to_string(), "/".to_string()]
    );
    let cands = workspace_candidates("/a/b/c");
    assert_eq!(choose_workspace_root("/a/b/c", &cands, &vec![false, true, false, false]), "/a/b");
    assert_eq!(choose_workspace_root("/a/b/c", &cands, &vec![false, false, false, false]), "/a/b/c");
}

#[test]
fn reinitializing_needs_force() {
    assert_eq!(init_decision(false, false), InitDecision::Create);
    assert_eq!(init_decision(false, true), InitDecision::Create);
    assert_eq!(init_decision(true, true), InitDecision::Reinitialize);
    assert_eq!(init_decision(true, false), InitDecision::Refuse);
}
