use cargo_edit::args::{AddArgs, UnstableOptions};
use cargo_edit::dep::SpecKind;
use cargo_edit::errors::{EditError, Warning};
use cargo_edit::parse::parse_feature;

fn args_for(tokens: &[&str]) -> AddArgs {
    let mut a = AddArgs::default();
    a.crates = tokens.iter().map(|s| s.to_string()).collect();
    a
}

#[test]
fn batch_with_inline_feature_and_versioned_spec() {
    let a = args_for(&["a", "+x", "b@1.0"]);
    let (specs, _warnings) = a.parse_dependencies().unwrap();
    assert_eq!(specs.len(), 2);
    match &specs[0].kind {
        SpecKind::PkgId { name, version_req } => {
            assert_eq!(name, "a");
            assert!(version_req.is_none());
        }
        _ => panic!("first spec should be a package id"),
    }
    assert_eq!(specs[0].inline_features, vec!["x".to_string()]);
    match &specs[1].kind {
        SpecKind::PkgId { name, version_req } => {
            assert_eq!(name, "b");
            assert_eq!(version_req.as_deref(), Some("1.0"));
        }
        _ => panic!("second spec should be a package id"),
    }
    assert!(specs[1].inline_features.is_empty());
}

#[test]
fn two_crates_with_git_are_ambiguous() {
    let mut a = args_for(&["a", "b"]);
    a.git = Some("https://example.invalid/repo.git".to_string());
    assert_eq!(
        a.parse_dependencies().unwrap_err(),
        EditError::AmbiguousBatchArguments
    );
}

#[test]
fn two_crates_with_rename_are_ambiguous() {
    let mut a = args_for(&["a", "b"]);
    a.rename = Some("c".to_string());
    assert_eq!(
        a.parse_dependencies().unwrap_err(),
        EditError::AmbiguousBatchArguments
    );
}

#[test]
fn two_crates_with_feature_flag_are_ambiguous() {
    let mut a = args_for(&["a", "b"]);
    a.features = Some(vec!["x".to_string()]);
    assert_eq!(
        a.parse_dependencies().unwrap_err(),
        EditError::AmbiguousBatchArguments
    );
}

#[test]
fn one_crate_with_git_is_fine() {
    let mut a = args_for(&["a", "+x"]);
    a.git = Some("https://example.invalid/repo.git".to_string());
    a.unstable_features = vec![UnstableOptions::Git, UnstableOptions::InlineAdd];
    let (specs, warnings) = a.parse_dependencies().unwrap();
    assert_eq!(specs.len(), 1);
    assert!(warnings.is_empty());
}

#[test]
fn leading_feature_token_dangles() {
    let a = args_for(&["+x"]);
    assert_eq!(
        a.parse_dependencies().unwrap_err(),
        EditError::DanglingFeatureToken
    );
}

#[test]
fn empty_name_is_invalid() {
    let a = args_for(&["@1.0"]);
    assert_eq!(
        a.parse_dependencies().unwrap_err(),
        EditError::InvalidCrateSpec
    );
}

#[test]
fn empty_version_req_is_invalid() {
    let a = args_for(&["serde@"]);
    assert_eq!(
        a.parse_dependencies().unwrap_err(),
        EditError::InvalidCrateSpec
    );
}

#[test]
fn path_token_parses_to_local_path() {
    let a = args_for(&["./crates/parser/"]);
    let (specs, _) = a.parse_dependencies().unwrap();
    assert_eq!(specs.len(), 1);
    match &specs[0].kind {
        SpecKind::LocalPath { path } => assert_eq!(path, "./crates/parser/"),
        _ => panic!("expected a local path spec"),
    }
}

#[test]
fn inline_feature_without_gate_warns() {
    let a = args_for(&["a", "+x"]);
    let (_, warnings) = a.parse_dependencies().unwrap();
    assert_eq!(warnings, vec![Warning::UnstableInlineAdd]);
}

#[test]
fn inline_feature_with_gate_is_silent() {
    let mut a = args_for(&["a", "+x"]);
    a.unstable_features = vec![UnstableOptions::InlineAdd];
    let (_, warnings) = a.parse_dependencies().unwrap();
    assert!(warnings.is_empty());
}

#[test]
fn feature_text_splits_on_space_and_comma() {
    let got = parse_feature("a b,c,, d");
    assert_eq!(
        got,
        vec![
            "a".to_string(),
            "b".to_string(),
            "c".to_string(),
            "d".to_string()
        ]
    );
}

#[test]
fn inline_features_accumulate_in_order() {
    let mut a = args_for(&["a", "+x y", "+z"]);
    a.unstable_features = vec![UnstableOptions::InlineAdd];
    let (specs, _) = a.parse_dependencies().unwrap();
    assert_eq!(
        specs[0].inline_features,
        vec!["x".to_string(), "y".to_string(), "z".to_string()]
    );
}
