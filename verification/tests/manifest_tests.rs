use cargo_edit::dep::Dependency;
use cargo_edit::errors::EditError;
use cargo_edit::manifest::{DepSection, DepTable, FeatureEntry, Manifest, TableEntry};
use cargo_edit::text::is_sorted;

fn dep(name: &str) -> Dependency {
    Dependency::new(name.to_string())
}

fn entry(name: &str) -> TableEntry {
    TableEntry {
        key: name.to_string(),
        dep: dep(name),
    }
}

fn runtime_table(keys: &[&str]) -> Manifest {
    Manifest {
        sections: vec![DepTable {
            section: DepSection::Runtime,
            entries: keys.iter().map(|k| entry(k)).collect(),
        }],
        features: Vec::new(),
    }
}

fn keys_of(m: &Manifest, idx: usize) -> Vec<String> {
    m.sections[idx].entries.iter().map(|e| e.key.clone()).collect()
}

#[test]
fn insert_replaces_in_place() {
    let mut m = runtime_table(&["a", "b", "c"]);
    let mut d = dep("b");
    d.version_req = Some("2.0".to_string());
    m.insert_into_table(&DepSection::Runtime, d);
    assert_eq!(keys_of(&m, 0), vec!["a", "b", "c"]);
    assert_eq!(
        m.sections[0].entries[1].dep.version_req.as_deref(),
        Some("2.0")
    );
}

#[test]
fn insert_appends_new_key() {
    let mut m = runtime_table(&["c", "a"]);
    m.insert_into_table(&DepSection::Runtime, dep("b"));
    assert_eq!(keys_of(&m, 0), vec!["c", "a", "b"]);
}

#[test]
fn insert_creates_missing_table() {
    let mut m = Manifest::new();
    m.insert_into_table(&DepSection::Dev, dep("a"));
    assert_eq!(m.sections.len(), 1);
    assert!(matches!(m.sections[0].section, DepSection::Dev));
    assert_eq!(keys_of(&m, 0), vec!["a"]);
}

#[test]
fn remove_absent_key_fails_and_leaves_document() {
    let mut m = runtime_table(&["a"]);
    let r = m.remove_from_table(&DepSection::Runtime, &"b".to_string());
    assert_eq!(r.unwrap_err(), EditError::KeyNotFound);
    assert_eq!(keys_of(&m, 0), vec!["a"]);
}

#[test]
fn remove_takes_entry_out() {
    let mut m = runtime_table(&["a", "b", "c"]);
    let removed = m
        .remove_from_table(&DepSection::Runtime, &"b".to_string())
        .unwrap();
    assert_eq!(removed.name, "b");
    assert_eq!(keys_of(&m, 0), vec!["a", "c"]);
}

#[test]
fn sort_table_orders_keys() {
    let mut m = runtime_table(&["c", "a", "b"]);
    m.sort_table(&DepSection::Runtime);
    assert_eq!(keys_of(&m, 0), vec!["a", "b", "c"]);
}

#[test]
fn gc_drops_qualifiers_once_not_optional() {
    let mut m = runtime_table(&["foo", "bar"]);
    m.features = vec![
        FeatureEntry {
            name: "extras".to_string(),
            activations: vec![
                "foo/fast".to_string(),
                "foo?/slow".to_string(),
                "bar/keep".to_string(),
                "plain".to_string(),
            ],
        },
    ];
    // `foo` is present but not optional, so its qualifiers go.
    m.gc_dep(&"foo".to_string());
    assert_eq!(
        m.features[0].activations,
        vec!["bar/keep".to_string(), "plain".to_string()]
    );
}

#[test]
fn gc_keeps_qualifiers_of_an_optional_dependency() {
    let mut m = runtime_table(&["foo"]);
    m.sections[0].entries[0].dep.optional = Some(true);
    m.features = vec![FeatureEntry {
        name: "extras".to_string(),
        activations: vec!["foo/fast".to_string()],
    }];
    m.gc_dep(&"foo".to_string());
    assert_eq!(m.features[0].activations, vec!["foo/fast".to_string()]);
}

#[test]
fn is_sorted_accepts_equal_neighbours() {
    let v = vec!["a".to_string(), "a".to_string(), "b".to_string()];
    assert!(is_sorted(&v));
    let w = vec!["b".to_string(), "a".to_string()];
    assert!(!is_sorted(&w));
    let empty: Vec<String> = Vec::new();
    assert!(is_sorted(&empty));
}

#[test]
fn table_is_sorted_treats_missing_table_as_sorted() {
    let m = Manifest::new();
    assert!(m.table_is_sorted(&DepSection::Runtime));
    let sorted = runtime_table(&["a", "b"]);
    assert!(sorted.table_is_sorted(&DepSection::Runtime));
    let unsorted = runtime_table(&["b", "a"]);
    assert!(!unsorted.table_is_sorted(&DepSection::Runtime));
}
