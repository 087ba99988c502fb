use cargo_edit::dep::{DepSource, Dependency};
use cargo_edit::lookup::find_existing_dependency;
use cargo_edit::manifest::{DepSection, DepTable, Manifest, TableEntry};

fn versioned(name: &str, req: &str) -> Dependency {
    let mut d = Dependency::new(name.to_string());
    d.version_req = Some(req.to_string());
    d
}

fn table(section: DepSection, entries: Vec<Dependency>) -> DepTable {
    DepTable {
        section,
        entries: entries
            .into_iter()
            .map(|d| TableEntry {
                key: d.name.clone(),
                dep: d,
            })
            .collect(),
    }
}

#[test]
fn runtime_outranks_dev_for_a_build_target() {
    let m = Manifest {
        sections: vec![
            table(DepSection::Runtime, vec![versioned("serde", "1.0")]),
            table(DepSection::Dev, vec![versioned("serde", "0.9")]),
        ],
        features: Vec::new(),
    };
    let hit = find_existing_dependency(&m, &"serde".to_string(), &DepSection::Build).unwrap();
    assert_eq!(hit.version_req.as_deref(), Some("1.0"));
}

#[test]
fn exact_section_outranks_everything() {
    let m = Manifest {
        sections: vec![
            table(DepSection::Runtime, vec![versioned("serde", "1.0")]),
            table(DepSection::Dev, vec![versioned("serde", "0.9")]),
        ],
        features: Vec::new(),
    };
    let hit = find_existing_dependency(&m, &"serde".to_string(), &DepSection::Dev).unwrap();
    assert_eq!(hit.version_req.as_deref(), Some("0.9"));
}

#[test]
fn absent_key_finds_nothing() {
    let m = Manifest {
        sections: vec![table(DepSection::Runtime, vec![versioned("serde", "1.0")])],
        features: Vec::new(),
    };
    assert!(find_existing_dependency(&m, &"clap".to_string(), &DepSection::Runtime).is_none());
}

#[test]
fn path_entry_loses_version_when_borrowed_into_dev() {
    let mut d = versioned("local", "0.1");
    d.source = DepSource::Path {
        path: "../local".to_string(),
    };
    let m = Manifest {
        sections: vec![table(DepSection::Runtime, vec![d])],
        features: Vec::new(),
    };
    let hit = find_existing_dependency(&m, &"local".to_string(), &DepSection::Dev).unwrap();
    assert!(hit.version_req.is_none());
}

#[test]
fn path_entry_keeps_version_in_its_own_dev_table() {
    let mut d = versioned("local", "0.1");
    d.source = DepSource::Path {
        path: "../local".to_string(),
    };
    let m = Manifest {
        sections: vec![table(DepSection::Dev, vec![d])],
        features: Vec::new(),
    };
    let hit = find_existing_dependency(&m, &"local".to_string(), &DepSection::Dev).unwrap();
    assert_eq!(hit.version_req.as_deref(), Some("0.1"));
}
