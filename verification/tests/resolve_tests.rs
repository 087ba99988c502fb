use cargo_edit::args::{AddArgs, UnstableOptions};
use cargo_edit::dep::{
    DepSource, Dependency, DependencySpec, FeatureRow, LatestInfo, SpecKind, WorkspaceMember,
};
use cargo_edit::errors::EditError;
use cargo_edit::manifest::{DepSection, DepTable, Manifest, TableEntry};
use cargo_edit::resolve::{
    apply_version_lookup, feature_fetch_request, populate_available_features, FeatureFetch,
    Resolution,
};

fn pkg_spec(name: &str, req: Option<&str>) -> DependencySpec {
    DependencySpec {
        kind: SpecKind::PkgId {
            name: name.to_string(),
            version_req: req.map(|s| s.to_string()),
        },
        inline_features: Vec::new(),
    }
}

fn path_spec(path: &str) -> DependencySpec {
    DependencySpec {
        kind: SpecKind::LocalPath {
            path: path.to_string(),
        },
        inline_features: Vec::new(),
    }
}

fn member(name: &str, version: &str, manifest_path: &str) -> WorkspaceMember {
    WorkspaceMember {
        name: name.to_string(),
        version: version.to_string(),
        manifest_path: manifest_path.to_string(),
    }
}

fn manifest_with_runtime(dep: Dependency) -> Manifest {
    Manifest {
        sections: vec![DepTable {
            section: DepSection::Runtime,
            entries: vec![TableEntry {
                key: dep.name.clone(),
                dep,
            }],
        }],
        features: Vec::new(),
    }
}

#[test]
fn explicit_version_is_kept_verbatim_without_lookup() {
    let a = AddArgs::default();
    let m = Manifest::new();
    let r = a
        .resolve_spec(&pkg_spec("docopt", Some("=0.8.1")), None, &m, &Vec::new())
        .unwrap();
    match r {
        Resolution::Resolved(d) => {
            assert_eq!(d.version_req.as_deref(), Some("=0.8.1"));
            assert!(matches!(d.source, DepSource::Registry { .. }));
        }
        _ => panic!("an explicit requirement must resolve without any lookup"),
    }
}

#[test]
fn git_with_version_conflicts() {
    let mut a = AddArgs::default();
    a.git = Some("https://example.invalid/repo.git".to_string());
    a.unstable_features = vec![UnstableOptions::Git];
    let m = Manifest::new();
    let r = a.resolve_spec(&pkg_spec("docopt", Some("0.8")), None, &m, &Vec::new());
    assert_eq!(r.unwrap_err(), EditError::ConflictingGitAndVersion);
}

#[test]
fn bare_name_takes_git_source_when_asked() {
    let mut a = AddArgs::default();
    a.git = Some("https://example.invalid/repo.git".to_string());
    a.branch = Some("main".to_string());
    a.unstable_features = vec![UnstableOptions::Git];
    let m = Manifest::new();
    let r = a
        .resolve_spec(&pkg_spec("demo", None), None, &m, &Vec::new())
        .unwrap();
    match r {
        Resolution::Resolved(d) => match d.source {
            DepSource::Git { repo, branch, tag, rev } => {
                assert_eq!(repo, "https://example.invalid/repo.git");
                assert_eq!(branch.as_deref(), Some("main"));
                assert!(tag.is_none() && rev.is_none());
            }
            _ => panic!("expected a git source"),
        },
        _ => panic!("a git spec needs no lookup"),
    }
}

#[test]
fn bare_name_inherits_existing_entry() {
    let a = AddArgs::default();
    let mut old = Dependency::new("serde".to_string());
    old.version_req = Some("1.0".to_string());
    let m = manifest_with_runtime(old);
    let r = a
        .resolve_spec(&pkg_spec("serde", None), None, &m, &Vec::new())
        .unwrap();
    match r {
        Resolution::Resolved(d) => assert_eq!(d.version_req.as_deref(), Some("1.0")),
        _ => panic!("an inherited entry needs no lookup"),
    }
}

#[test]
fn bare_name_matching_member_becomes_path_with_version() {
    let a = AddArgs::default();
    let m = Manifest::new();
    let members = vec![member("local", "0.3.0", "/ws/local/Cargo.toml")];
    let r = a
        .resolve_spec(&pkg_spec("local", None), None, &m, &members)
        .unwrap();
    match r {
        Resolution::Resolved(d) => {
            match d.source {
                DepSource::Path { path } => assert_eq!(path, "/ws/local"),
                _ => panic!("expected a path source"),
            }
            assert_eq!(d.version_req.as_deref(), Some("0.3.0"));
        }
        _ => panic!("a member match needs no lookup"),
    }
}

#[test]
fn dev_member_match_skips_version() {
    let mut a = AddArgs::default();
    a.dev = true;
    let m = Manifest::new();
    let members = vec![member("local", "0.3.0", "/ws/local/Cargo.toml")];
    let r = a
        .resolve_spec(&pkg_spec("local", None), None, &m, &members)
        .unwrap();
    match r {
        Resolution::Resolved(d) => assert!(d.version_req.is_none()),
        _ => panic!("a member match needs no lookup"),
    }
}

#[test]
fn unknown_bare_name_asks_for_a_lookup() {
    let a = AddArgs::default();
    let m = Manifest::new();
    let r = a
        .resolve_spec(&pkg_spec("unheard-of", None), None, &m, &Vec::new())
        .unwrap();
    assert!(matches!(r, Resolution::NeedsVersionLookup(_)));
}

#[test]
fn failed_lookup_surfaces_as_error() {
    let d = Dependency::new("unheard-of".to_string());
    assert_eq!(
        apply_version_lookup(d, None).unwrap_err(),
        EditError::VersionLookupFailed
    );
}

#[test]
fn lookup_answer_normalizes_name_and_version() {
    let d = Dependency::new("Unheard_Of".to_string());
    let answer = LatestInfo {
        name: "unheard-of".to_string(),
        version: "2.1.0".to_string(),
        available_features: vec![FeatureRow {
            name: "default".to_string(),
            implies: Vec::new(),
        }],
    };
    let got = apply_version_lookup(d, Some(answer)).unwrap();
    assert_eq!(got.name, "unheard-of");
    assert_eq!(got.version_req.as_deref(), Some("2.1.0"));
    assert_eq!(got.available_features.len(), 1);
}

#[test]
fn path_spec_inherits_version_of_same_path_entry() {
    let a = AddArgs::default();
    let mut old = Dependency::new("local".to_string());
    old.version_req = Some("0.2".to_string());
    old.source = DepSource::Path {
        path: "/ws/local".to_string(),
    };
    let m = manifest_with_runtime(old);
    let name = "local".to_string();
    let r = a
        .resolve_spec(&path_spec("/ws/local"), Some(&name), &m, &Vec::new())
        .unwrap();
    match r {
        Resolution::Resolved(d) => assert_eq!(d.version_req.as_deref(), Some("0.2")),
        _ => panic!("a path spec needs no lookup"),
    }
}

#[test]
fn path_spec_takes_member_version_when_new() {
    let a = AddArgs::default();
    let m = Manifest::new();
    let members = vec![member("local", "0.5.0", "/ws/local/Cargo.toml")];
    let name = "local".to_string();
    let r = a
        .resolve_spec(&path_spec("/ws/local"), Some(&name), &m, &members)
        .unwrap();
    match r {
        Resolution::Resolved(d) => assert_eq!(d.version_req.as_deref(), Some("0.5.0")),
        _ => panic!("a path spec needs no lookup"),
    }
}

#[test]
fn modifiers_apply_to_the_resolved_record() {
    let mut a = AddArgs::default();
    a.optional = true;
    a.no_default_features = true;
    a.rename = Some("serde1".to_string());
    a.features = Some(vec!["derive rc".to_string()]);
    let m = Manifest::new();
    let r = a
        .resolve_spec(&pkg_spec("serde", Some("1.0")), None, &m, &Vec::new())
        .unwrap();
    match r {
        Resolution::Resolved(d) => {
            assert_eq!(d.optional, Some(true));
            assert_eq!(d.default_features, Some(false));
            assert_eq!(d.rename.as_deref(), Some("serde1"));
            assert_eq!(
                d.features,
                Some(vec!["derive".to_string(), "rc".to_string()])
            );
            assert_eq!(d.toml_key().as_str(), "serde1");
        }
        _ => panic!("an explicit requirement must resolve without any lookup"),
    }
}

#[test]
fn fetch_request_follows_the_source() {
    let mut d = Dependency::new("a".to_string());
    d.version_req = Some("1.0".to_string());
    match feature_fetch_request(&d) {
        FeatureFetch::FromRegistry { name, version } => {
            assert_eq!(name, "a");
            assert_eq!(version, "1.0");
        }
        _ => panic!("a versioned registry record fetches from the registry"),
    }
    d.source = DepSource::Path {
        path: "/ws/a".to_string(),
    };
    assert!(matches!(
        feature_fetch_request(&d),
        FeatureFetch::FromPath(_)
    ));
    d.available_features = vec![FeatureRow {
        name: "default".to_string(),
        implies: Vec::new(),
    }];
    assert!(matches!(feature_fetch_request(&d), FeatureFetch::NoFetch));
}

#[test]
fn populate_keeps_a_table_it_already_has() {
    let mut d = Dependency::new("a".to_string());
    d.available_features = vec![FeatureRow {
        name: "x".to_string(),
        implies: Vec::new(),
    }];
    let replaced = populate_available_features(
        d,
        vec![FeatureRow {
            name: "y".to_string(),
            implies: Vec::new(),
        }],
    );
    assert_eq!(replaced.available_features[0].name, "x");

    let empty = Dependency::new("b".to_string());
    let filled = populate_available_features(
        empty,
        vec![FeatureRow {
            name: "y".to_string(),
            implies: Vec::new(),
        }],
    );
    assert_eq!(filled.available_features[0].name, "y");
}
