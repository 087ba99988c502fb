use cargo_edit::dep::FeatureRow;
use cargo_edit::features::{activated_features, unknown_features};

fn row(name: &str, implies: &[&str]) -> FeatureRow {
    FeatureRow {
        name: name.to_string(),
        implies: implies.iter().map(|s| s.to_string()).collect(),
    }
}

#[test]
fn default_closure_activates_chain() {
    let available = vec![row("default", &["a"]), row("a", &["b"]), row("b", &[])];
    let (activated, deactivated) = activated_features(&Vec::new(), true, &available);
    assert_eq!(activated, vec!["a".to_string(), "b".to_string()]);
    assert!(deactivated.is_empty());
}

#[test]
fn disabled_defaults_leave_everything_off() {
    let available = vec![row("default", &["a"]), row("a", &["b"]), row("b", &[])];
    let (activated, deactivated) = activated_features(&Vec::new(), false, &available);
    assert!(activated.is_empty());
    assert_eq!(
        deactivated,
        vec!["a".to_string(), "b".to_string()]
    );
}

#[test]
fn requested_feature_pulls_its_implications() {
    let available = vec![
        row("default", &[]),
        row("net", &["io", "sync"]),
        row("io", &[]),
        row("sync", &[]),
        row("extra", &[]),
    ];
    let requested = vec!["net".to_string()];
    let (activated, deactivated) = activated_features(&requested, false, &available);
    assert_eq!(
        activated,
        vec!["io".to_string(), "net".to_string(), "sync".to_string()]
    );
    assert_eq!(deactivated, vec!["extra".to_string()]);
}

#[test]
fn cyclic_implications_terminate() {
    let available = vec![row("a", &["b"]), row("b", &["a"])];
    let requested = vec!["a".to_string()];
    let (activated, deactivated) = activated_features(&requested, false, &available);
    assert_eq!(activated, vec!["a".to_string(), "b".to_string()]);
    assert!(deactivated.is_empty());
}

#[test]
fn requested_feature_named_default_is_still_suppressed() {
    // The synthetic root is always dropped from the report, even when a
    // feature literally named "default" was requested.
    let available = vec![row("default", &["a"]), row("a", &[])];
    let requested = vec!["default".to_string()];
    let (activated, deactivated) = activated_features(&requested, false, &available);
    assert_eq!(activated, vec!["a".to_string()]);
    assert!(deactivated.is_empty());
}

#[test]
fn unknown_features_are_sorted_and_deduplicated() {
    let available = vec![row("serde", &[])];
    let requested = vec![
        "zzz".to_string(),
        "abc".to_string(),
        "serde".to_string(),
        "zzz".to_string(),
    ];
    let unknown = unknown_features(&requested, &available);
    assert_eq!(unknown, vec!["abc".to_string(), "zzz".to_string()]);
}
