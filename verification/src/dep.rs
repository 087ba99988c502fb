//! Dependency records: the parsed form of a crate token and the fully
//! resolved entry that is written into a manifest table.

use vstd::prelude::*;

verus! {

/// Spec-level image of an optional string.
pub open spec fn opt_view(o: Option<String>) -> Option<Seq<char>> {
    match o {
        Some(s) => Some(s@),
        None => None,
    }
}

/// One row of a dependency's available-feature table: a feature and the
/// features it transitively implies.
#[derive(Debug)]
pub struct FeatureRow {
    pub name: String,
    pub implies: Vec<String>,
}

impl View for FeatureRow {
    type V = (Seq<char>, Seq<Seq<char>>);

    open spec fn view(&self) -> Self::V {
        (self.name@, self.implies.deep_view())
    }
}

/// Spec-level image of an available-feature table.
pub open spec fn rows_view(rows: Seq<FeatureRow>) -> Seq<(Seq<char>, Seq<Seq<char>>)> {
    rows.map_values(|r: FeatureRow| r@)
}

/// A sibling package in the same workspace, known without any lookup.
#[derive(Debug)]
pub struct WorkspaceMember {
    pub name: String,
    pub version: String,
    /// Location of the member's own manifest file.
    pub manifest_path: String,
}

/// Spec-level image of a [`WorkspaceMember`].
pub ghost struct MemberView {
    pub name: Seq<char>,
    pub version: Seq<char>,
    pub manifest_path: Seq<char>,
}

impl View for WorkspaceMember {
    type V = MemberView;

    open spec fn view(&self) -> MemberView {
        MemberView {
            name: self.name@,
            version: self.version@,
            manifest_path: self.manifest_path@,
        }
    }
}

/// What a registry lookup reported for the newest usable version of a
/// crate: its canonical name, the picked version, and its feature table.
#[derive(Debug)]
pub struct LatestInfo {
    pub name: String,
    pub version: String,
    pub available_features: Vec<FeatureRow>,
}

/// The parsed shape of one crate token.
#[derive(Debug)]
pub enum SpecKind {
    /// `name` or `name@req`.
    PkgId { name: String, version_req: Option<String> },
    /// A local directory.
    LocalPath { path: String },
}

/// One parsed crate token together with the features attached to it by
/// later `+feature` tokens.
#[derive(Debug)]
pub struct DependencySpec {
    pub kind: SpecKind,
    pub inline_features: Vec<String>,
}

/// Spec-level image of a [`SpecKind`].
pub ghost enum SpecKindView {
    PkgId { name: Seq<char>, version_req: Option<Seq<char>> },
    LocalPath { path: Seq<char> },
}

impl View for SpecKind {
    type V = SpecKindView;

    open spec fn view(&self) -> SpecKindView {
        match self {
            SpecKind::PkgId { name, version_req } => SpecKindView::PkgId {
                name: name@,
                version_req: opt_view(*version_req),
            },
            SpecKind::LocalPath { path } => SpecKindView::LocalPath { path: path@ },
        }
    }
}

/// Spec-level image of a [`DependencySpec`].
pub ghost struct DependencySpecView {
    pub kind: SpecKindView,
    pub inline_features: Seq<Seq<char>>,
}

impl View for DependencySpec {
    type V = DependencySpecView;

    open spec fn view(&self) -> DependencySpecView {
        DependencySpecView {
            kind: self.kind@,
            inline_features: self.inline_features.deep_view(),
        }
    }
}

/// Where a resolved dependency comes from.
#[derive(Debug)]
pub enum DepSource {
    /// A versioned release, optionally from a named alternative registry.
    Registry { registry: Option<String> },
    /// A local directory.
    Path { path: String },
    /// A git repository, with at most one of branch, tag and revision.
    Git { repo: String, branch: Option<String>, tag: Option<String>, rev: Option<String> },
}

/// Spec-level image of a [`DepSource`].
pub ghost enum SourceView {
    Registry { registry: Option<Seq<char>> },
    Path { path: Seq<char> },
    Git {
        repo: Seq<char>,
        branch: Option<Seq<char>>,
        tag: Option<Seq<char>>,
        rev: Option<Seq<char>>,
    },
}

impl View for DepSource {
    type V = SourceView;

    open spec fn view(&self) -> SourceView {
        match self {
            DepSource::Registry { registry } => SourceView::Registry {
                registry: opt_view(*registry),
            },
            DepSource::Path { path } => SourceView::Path { path: path@ },
            DepSource::Git { repo, branch, tag, rev } => SourceView::Git {
                repo: repo@,
                branch: opt_view(*branch),
                tag: opt_view(*tag),
                rev: opt_view(*rev),
            },
        }
    }
}

/// A fully populated dependency record, ready to be written into a
/// manifest table.
#[derive(Debug)]
pub struct Dependency {
    pub name: String,
    pub rename: Option<String>,
    pub version_req: Option<String>,
    pub source: DepSource,
    /// Tri-state: `None` leaves whatever the manifest already says.
    pub optional: Option<bool>,
    /// Tri-state: `None` leaves whatever the manifest already says.
    pub default_features: Option<bool>,
    pub features: Option<Vec<String>>,
    pub available_features: Vec<FeatureRow>,
}

/// Spec-level image of a [`Dependency`].
pub ghost struct DepView {
    pub name: Seq<char>,
    pub rename: Option<Seq<char>>,
    pub version_req: Option<Seq<char>>,
    pub source: SourceView,
    pub optional: Option<bool>,
    pub default_features: Option<bool>,
    pub features: Option<Seq<Seq<char>>>,
    pub available_features: Seq<(Seq<char>, Seq<Seq<char>>)>,
}

impl View for Dependency {
    type V = DepView;

    open spec fn view(&self) -> DepView {
        DepView {
            name: self.name@,
            rename: opt_view(self.rename),
            version_req: opt_view(self.version_req),
            source: self.source@,
            optional: self.optional,
            default_features: self.default_features,
            features: match self.features {
                Some(v) => Some(v.deep_view()),
                None => None,
            },
            available_features: rows_view(self.available_features@),
        }
    }
}

/// Duplicate an optional string.
pub fn clone_opt_string(o: &Option<String>) -> (r: Option<String>)
    ensures
        r == *o,
{
    match o {
        Some(s) => Some(s.clone()),
        None => None,
    }
}

/// Duplicate a list of strings.
pub fn clone_string_vec(v: &Vec<String>) -> (r: Vec<String>)
    ensures
        r@ == v@,
{
    let mut r: Vec<String> = Vec::new();
    let mut i: usize = 0;
    while i < v.len()
        invariant
            i <= v.len(),
            r@ =~= v@.subrange(0, i as int),
        decreases v.len() - i,
    {
        r.push(v[i].clone());
        assert(r@ =~= v@.subrange(0, i as int + 1));
        i = i + 1;
    }
    assert(v@.subrange(0, v.len() as int) =~= v@);
    r
}

impl Clone for FeatureRow {
    fn clone(&self) -> (r: Self)
        ensures
            r@ == self@,
    {
        let r = FeatureRow { name: self.name.clone(), implies: clone_string_vec(&self.implies) };
        proof {
            assert(r.implies.deep_view() =~= self.implies.deep_view());
        }
        r
    }
}

/// Duplicate an available-feature table.
pub fn clone_rows(v: &Vec<FeatureRow>) -> (r: Vec<FeatureRow>)
    ensures
        rows_view(r@) == rows_view(v@),
{
    let mut r: Vec<FeatureRow> = Vec::new();
    let mut i: usize = 0;
    while i < v.len()
        invariant
            i <= v.len(),
            r@.len() == i,
            forall|j: int| 0 <= j < i ==> (#[trigger] r@[j])@ == v@[j]@,
        decreases v.len() - i,
    {
        r.push(v[i].clone());
        i = i + 1;
    }
    assert(rows_view(r@) =~= rows_view(v@));
    r
}

impl Clone for DepSource {
    fn clone(&self) -> (r: Self)
        ensures
            r@ == self@,
    {
        match self {
            DepSource::Registry { registry } => DepSource::Registry {
                registry: clone_opt_string(registry),
            },
            DepSource::Path { path } => DepSource::Path { path: path.clone() },
            DepSource::Git { repo, branch, tag, rev } => DepSource::Git {
                repo: repo.clone(),
                branch: clone_opt_string(branch),
                tag: clone_opt_string(tag),
                rev: clone_opt_string(rev),
            },
        }
    }
}

impl Clone for Dependency {
    fn clone(&self) -> (r: Self)
        ensures
            r@ == self@,
    {
        let features = match &self.features {
            Some(v) => Some(clone_string_vec(v)),
            None => None,
        };
        let r = Dependency {
            name: self.name.clone(),
            rename: clone_opt_string(&self.rename),
            version_req: clone_opt_string(&self.version_req),
            source: self.source.clone(),
            optional: self.optional,
            default_features: self.default_features,
            features,
            available_features: clone_rows(&self.available_features),
        };
        proof {
            match &self.features {
                Some(v) => {
                    assert(r.features matches Some(w) && w.deep_view() =~= v.deep_view());
                },
                None => {},
            }
        }
        r
    }
}

/// The key under which a dependency stands in a manifest table: its
/// rename if one is set, else its package name.
pub open spec fn dep_key(d: DepView) -> Seq<char> {
    match d.rename {
        Some(r) => r,
        None => d.name,
    }
}

impl Dependency {
    /// A registry dependency on `name` with everything else left open.
    pub fn new(name: String) -> (r: Dependency)
        ensures
            r@ == (DepView {
                name: name@,
                rename: None,
                version_req: None,
                source: SourceView::Registry { registry: None },
                optional: None,
                default_features: None,
                features: None,
                available_features: Seq::empty(),
            }),
    {
        let r = Dependency {
            name,
            rename: None,
            version_req: None,
            source: DepSource::Registry { registry: None },
            optional: None,
            default_features: None,
            features: None,
            available_features: Vec::new(),
        };
        proof {
            assert(rows_view(r.available_features@) =~= Seq::<(Seq<char>, Seq<Seq<char>>)>::empty());
        }
        r
    }

    /// The manifest key of this record.
    pub fn toml_key(&self) -> (k: &String)
        ensures
            k@ == dep_key(self@),
    {
        match &self.rename {
            Some(r) => r,
            None => &self.name,
        }
    }
}

} // verus!
