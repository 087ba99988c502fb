use cargo_edit::args::{AddArgs, RmArgs};
use cargo_edit::dep::{DepSource, Dependency, FeatureRow};
use cargo_edit::errors::{EditError, Warning};
use cargo_edit::manifest::{DepSection, DepTable, FeatureEntry, Manifest, TableEntry};
use cargo_edit::report::add_report;

fn dep(name: &str) -> Dependency {
    Dependency::new(name.to_string())
}

fn runtime_table(keys: &[&str]) -> Manifest {
    Manifest {
        sections: vec![DepTable {
            section: DepSection::Runtime,
            entries: keys
                .iter()
                .map(|k| TableEntry {
                    key: k.to_string(),
                    dep: dep(k),
                })
                .collect(),
        }],
        features: Vec::new(),
    }
}

fn keys_of(m: &Manifest, idx: usize) -> Vec<String> {
    m.sections[idx].entries.iter().map(|e| e.key.clone()).collect()
}

fn rm_args(names: &[&str], dev: bool) -> RmArgs {
    RmArgs {
        crates: names.iter().map(|s| s.to_string()).collect(),
        dev,
        build: false,
        manifest_path: None,
        pkgid: None,
        quiet: true,
    }
}

#[test]
fn dry_run_never_allows_a_write() {
    let mut a = AddArgs::default();
    a.dry_run = true;
    a.quiet = true;
    let mut m = Manifest::new();
    let deps = vec![dep("serde")];
    let outcome = a
        .execute_add_mutations(&mut m, &deps, &"/ws/self".to_string())
        .unwrap();
    assert!(!outcome.write);
    assert!(outcome.warnings.contains(&Warning::DryRun));
}

#[test]
fn a_real_run_allows_the_write() {
    let mut a = AddArgs::default();
    a.quiet = true;
    let mut m = Manifest::new();
    let deps = vec![dep("serde")];
    let outcome = a
        .execute_add_mutations(&mut m, &deps, &"/ws/self".to_string())
        .unwrap();
    assert!(outcome.write);
    assert_eq!(keys_of(&m, 0), vec!["serde"]);
}

#[test]
fn adding_the_package_to_itself_fails() {
    let mut a = AddArgs::default();
    a.quiet = true;
    let mut m = Manifest::new();
    let mut d = dep("me");
    d.source = DepSource::Path {
        path: "/ws/self".to_string(),
    };
    let r = a.execute_add_mutations(&mut m, &vec![d], &"/ws/self".to_string());
    assert_eq!(r.unwrap_err(), EditError::SelfDependency);
}

#[test]
fn sorted_table_stays_sorted_after_inserts() {
    let mut a = AddArgs::default();
    a.quiet = true;
    let mut m = runtime_table(&["a", "c"]);
    let deps = vec![dep("b")];
    a.execute_add_mutations(&mut m, &deps, &"/ws/self".to_string())
        .unwrap();
    assert_eq!(keys_of(&m, 0), vec!["a", "b", "c"]);
}

#[test]
fn hand_ordered_table_keeps_its_order() {
    let mut a = AddArgs::default();
    a.quiet = true;
    let mut m = runtime_table(&["c", "a"]);
    let deps = vec![dep("b")];
    a.execute_add_mutations(&mut m, &deps, &"/ws/self".to_string())
        .unwrap();
    assert_eq!(keys_of(&m, 0), vec!["c", "a", "b"]);
}

#[test]
fn unrecognized_features_warn_but_do_not_fail() {
    let mut a = AddArgs::default();
    a.quiet = true;
    let mut m = Manifest::new();
    let mut d = dep("serde");
    d.features = Some(vec!["nope".to_string()]);
    d.available_features = vec![FeatureRow {
        name: "derive".to_string(),
        implies: Vec::new(),
    }];
    let outcome = a
        .execute_add_mutations(&mut m, &vec![d], &"/ws/self".to_string())
        .unwrap();
    assert_eq!(
        outcome.warnings,
        vec![Warning::UnrecognizedFeatures(vec!["nope".to_string()])]
    );
}

#[test]
fn removal_takes_the_entry_and_its_qualifiers() {
    let mut m = runtime_table(&["foo", "bar"]);
    m.sections[0].entries[0].dep.optional = Some(true);
    m.features = vec![FeatureEntry {
        name: "extras".to_string(),
        activations: vec!["foo/fast".to_string(), "bar/keep".to_string()],
    }];
    let args = rm_args(&["foo"], false);
    args.execute_rm_mutations(&mut m).unwrap();
    assert_eq!(keys_of(&m, 0), vec!["bar"]);
    assert_eq!(m.features[0].activations, vec!["bar/keep".to_string()]);
}

#[test]
fn removing_an_absent_entry_fails() {
    let mut m = runtime_table(&["a"]);
    let args = rm_args(&["zzz"], false);
    assert_eq!(
        args.execute_rm_mutations(&mut m).unwrap_err(),
        EditError::KeyNotFound
    );
}

#[test]
fn removal_targets_the_selected_section() {
    let mut m = runtime_table(&["a"]);
    let args = rm_args(&["a"], true);
    assert_eq!(
        args.execute_rm_mutations(&mut m).unwrap_err(),
        EditError::KeyNotFound
    );
    assert_eq!(keys_of(&m, 0), vec!["a"]);
}

#[test]
fn report_shows_version_and_features() {
    let mut d = dep("serde");
    d.version_req = Some("1.0.100".to_string());
    d.features = Some(vec!["derive".to_string()]);
    d.available_features = vec![
        FeatureRow {
            name: "default".to_string(),
            implies: vec!["std".to_string()],
        },
        FeatureRow {
            name: "std".to_string(),
            implies: Vec::new(),
        },
        FeatureRow {
            name: "derive".to_string(),
            implies: Vec::new(),
        },
        FeatureRow {
            name: "rc".to_string(),
            implies: Vec::new(),
        },
    ];
    let rep = add_report(&d, &DepSection::Runtime, false);
    assert_eq!(rep.name, "serde");
    assert_eq!(rep.version.as_deref(), Some("1.0.100"));
    assert!(rep.v_prefix);
    assert!(!rep.local);
    assert_eq!(rep.section_label, "dependencies");
    assert_eq!(
        rep.activated,
        vec!["derive".to_string(), "std".to_string()]
    );
    assert_eq!(rep.deactivated, vec!["rc".to_string()]);
}

#[test]
fn report_labels_target_sections() {
    let d = dep("winapi");
    let rep = add_report(
        &d,
        &DepSection::Target("cfg(windows)".to_string()),
        false,
    );
    assert_eq!(rep.section_label, "dependencies for target `cfg(windows)`");
}

#[test]
fn report_marks_local_records() {
    let mut d = dep("local");
    d.source = DepSource::Path {
        path: "/ws/local".to_string(),
    };
    d.version_req = Some("0.1".to_string());
    let rep = add_report(&d, &DepSection::Dev, true);
    assert!(rep.local);
    assert!(rep.version.is_none());
    assert!(rep.optional);
}
