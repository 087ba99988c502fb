//! Structured result values for one added dependency; how they are
//! rendered is the caller's business.

use vstd::prelude::*;

use crate::dep::{rows_view, DepView, Dependency, SourceView};
use crate::features::{activated_features, closure, default_name, rows_distinct, seed_set, set_of};
use crate::manifest::{DepSection, SectionView};
use crate::text::strings_sorted;

verus! {

/// What one added dependency comes to, ready for display.
#[derive(Debug)]
pub struct AddReport {
    /// Package name of the record.
    pub name: String,
    /// Version requirement shown beside the name; none for a local or
    /// unversioned record.
    pub version: Option<String>,
    /// The record points at a local directory.
    pub local: bool,
    /// The shown version starts with a digit, so a `v` belongs in
    /// front of it.
    pub v_prefix: bool,
    /// The record was added as optional.
    pub optional: bool,
    /// Where the record went, as a label.
    pub section_label: String,
    /// Features the record switches on, sorted.
    pub activated: Vec<String>,
    /// Known features that stay off, sorted.
    pub deactivated: Vec<String>,
}

/// The label of a section: its table name, with the platform spelled
/// out for a target table.
pub open spec fn section_label_spec(s: SectionView) -> Seq<char> {
    match s {
        SectionView::Runtime => "dependencies"@,
        SectionView::Dev => "dev-dependencies"@,
        SectionView::Build => "build-dependencies"@,
        SectionView::Target(t) => "dependencies for target `"@ + t + "`"@,
    }
}

/// The features a record asks for.
pub open spec fn requested_of(d: DepView) -> Seq<Seq<char>> {
    match d.features {
        Some(v) => v,
        None => seq![],
    }
}

/// Whether a record keeps the dependency's default features on; an
/// unset flag means yes.
pub open spec fn defaults_on(d: DepView) -> bool {
    match d.default_features {
        Some(b) => b,
        None => true,
    }
}

/// A version text gets a `v` in front exactly when its first character
/// is a decimal digit; an empty text counts as numeric.
pub open spec fn spec_v_prefix(v: Seq<char>) -> bool {
    v.len() == 0 || (48 <= v[0] as u32 <= 57)
}

/// The label of `section`.
pub fn section_label(section: &DepSection) -> (r: String)
    ensures
        r@ == section_label_spec(section@),
{
    match section {
        DepSection::Runtime => "dependencies".to_owned(),
        DepSection::Dev => "dev-dependencies".to_owned(),
        DepSection::Build => "build-dependencies".to_owned(),
        DepSection::Target(t) => {
            let mut s = "dependencies for target `".to_owned();
            s.append(t.as_str());
            s.append("`");
            s
        },
    }
}

/// Describe one added record: name, shown version, destination, and
/// the feature lists that [`activated_features`] settles.
pub fn add_report(dep: &Dependency, section: &DepSection, optional: bool) -> (r: AddReport)
    requires
        rows_distinct(rows_view(dep.available_features@)),
    ensures
        r.name@ == dep@.name,
        r.local == (dep@.source is Path),
        r.local ==> r.version is None,
        !r.local ==> crate::dep::opt_view(r.version) == dep@.version_req,
        (r.version matches Some(v) ==> r.v_prefix == spec_v_prefix(v@)),
        r.optional == optional,
        r.section_label@ == section_label_spec(section@),
        ({
            let rows = rows_view(dep.available_features@);
            let cl = closure(rows, seed_set(requested_of(dep@), defaults_on(dep@)));
            &&& set_of(r.activated.deep_view()) == cl.remove(default_name())
            &&& r.activated.deep_view().no_duplicates()
            &&& strings_sorted(r.activated.deep_view())
            &&& set_of(r.deactivated.deep_view()) == Set::new(
                |f: Seq<char>| crate::features::has_feature(rows, f) && !cl.contains(f) && f
                    != default_name(),
            )
            &&& r.deactivated.deep_view().no_duplicates()
            &&& strings_sorted(r.deactivated.deep_view())
        }),
{
    let local = match &dep.source {
        crate::dep::DepSource::Path { .. } => true,
        _ => false,
    };
    let version: Option<String> = if local {
        None
    } else {
        crate::dep::clone_opt_string(&dep.version_req)
    };
    let v_prefix = match &version {
        Some(v) => {
            let vs = v.as_str();
            if vs.unicode_len() == 0 {
                true
            } else {
                let c = vs.get_char(0) as u32;
                48 <= c && c <= 57
            }
        },
        None => false,
    };
    let empty: Vec<String> = Vec::new();
    let requested: &Vec<String> = match &dep.features {
        Some(v) => v,
        None => &empty,
    };
    let default_enabled = match dep.default_features {
        Some(b) => b,
        None => true,
    };
    proof {
        assert(requested.deep_view() =~= requested_of(dep@));
    }
    let (activated, deactivated) = activated_features(
        requested,
        default_enabled,
        &dep.available_features,
    );
    AddReport {
        name: dep.name.clone(),
        version,
        local,
        v_prefix,
        optional,
        section_label: section_label(section),
        activated,
        deactivated,
    }
}

} // verus!
