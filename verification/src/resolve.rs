//! Turning a parsed dependency spec into a fully populated record:
//! decide the source (git, path or registry), inherit from whatever the
//! manifest already pins, and apply the command's modifiers.
//!
//! Only the registry lookup itself is left to the caller: when a spec
//! needs one, resolution stops at [`Resolution::NeedsVersionLookup`]
//! and [`apply_version_lookup`] finishes the job from the answer.

use vstd::prelude::*;

use crate::args::AddArgs;
use crate::dep::{
    clone_opt_string, clone_string_vec, dep_key, rows_view, DepSource, DepView, Dependency,
    DependencySpecView, FeatureRow, LatestInfo, MemberView, SourceView, SpecKind, SpecKindView,
    WorkspaceMember,
};
use crate::errors::EditError;
use crate::lookup::{find_existing_dependency, spec_existing};
use crate::manifest::Manifest;
use crate::parse::split_feats;
use crate::text::{parent_dir, parent_of, string_eq};

verus! {

/// A registry dependency on `name` with nothing else decided yet.
pub open spec fn base_dep(name: Seq<char>) -> DepView {
    DepView {
        name,
        rename: None,
        version_req: None,
        source: SourceView::Registry { registry: None },
        optional: None,
        default_features: None,
        features: None,
        available_features: Seq::empty(),
    }
}

/// The features an out-of-band feature list names, each element split
/// on spaces and commas.
pub open spec fn flat_feats(fs: Seq<Seq<char>>) -> Seq<Seq<char>>
    decreases fs.len(),
{
    if fs.len() == 0 {
        seq![]
    } else {
        split_feats(fs[0]) + flat_feats(fs.skip(1))
    }
}

/// The record after the command's tri-state modifiers: a flag that was
/// given wins, one that was not leaves the record alone.
pub open spec fn spec_populate(a: AddArgs, d: DepView) -> DepView {
    DepView {
        optional: if a.optional {
            Some(true)
        } else if a.no_optional {
            Some(false)
        } else {
            d.optional
        },
        default_features: if a.default_features {
            Some(true)
        } else if a.no_default_features {
            Some(false)
        } else {
            d.default_features
        },
        features: match a.features {
            Some(v) => Some(flat_feats(v.deep_view())),
            None => d.features,
        },
        rename: match a.rename {
            Some(r) => Some(r@),
            None => d.rename,
        },
        ..d
    }
}

/// An explicit registry name overrides whatever registry the record
/// inherited; sources other than the registry carry none.
pub open spec fn apply_registry(a: AddArgs, d: DepView) -> DepView {
    match a.registry {
        Some(r) => match d.source {
            SourceView::Registry { .. } => DepView {
                source: SourceView::Registry { registry: Some(r@) },
                ..d
            },
            _ => d,
        },
        None => d,
    }
}

/// Features from `+feature` tokens extend the requested list.
pub open spec fn apply_inline(inline: Seq<Seq<char>>, d: DepView) -> DepView {
    if inline.len() == 0 {
        d
    } else {
        DepView {
            features: Some(
                match d.features {
                    Some(v) => v + inline,
                    None => inline,
                },
            ),
            ..d
        }
    }
}

/// The first workspace member named `name`, or the member count.
pub open spec fn first_member_by_name(ms: Seq<MemberView>, name: Seq<char>) -> int
    decreases ms.len(),
{
    if ms.len() == 0 {
        0
    } else if ms[0].name == name {
        0
    } else {
        1 + first_member_by_name(ms.skip(1), name)
    }
}

/// The first workspace member whose directory is `dir`, or the member
/// count.
pub open spec fn first_member_by_dir(ms: Seq<MemberView>, dir: Seq<char>) -> int
    decreases ms.len(),
{
    if ms.len() == 0 {
        0
    } else if parent_of(ms[0].manifest_path) == dir {
        0
    } else {
        1 + first_member_by_dir(ms.skip(1), dir)
    }
}

proof fn lemma_first_member_by_name(ms: Seq<MemberView>, name: Seq<char>, i: int)
    requires
        0 <= i <= ms.len(),
        forall|j: int| 0 <= j < i ==> (#[trigger] ms[j]).name != name,
        i < ms.len() ==> ms[i].name == name,
    ensures
        first_member_by_name(ms, name) == i,
    decreases ms.len(),
{
    if ms.len() > 0 && ms[0].name != name {
        lemma_first_member_by_name(ms.skip(1), name, i - 1);
    }
}

proof fn lemma_first_member_by_dir(ms: Seq<MemberView>, dir: Seq<char>, i: int)
    requires
        0 <= i <= ms.len(),
        forall|j: int| 0 <= j < i ==> parent_of((#[trigger] ms[j]).manifest_path) != dir,
        i < ms.len() ==> parent_of(ms[i].manifest_path) == dir,
    ensures
        first_member_by_dir(ms, dir) == i,
    decreases ms.len(),
{
    if ms.len() > 0 && parent_of(ms[0].manifest_path) != dir {
        lemma_first_member_by_dir(ms.skip(1), dir, i - 1);
    }
}

/// The outcome of resolving one spec without any network.
#[derive(Debug)]
pub enum Resolution {
    /// Every field is decided.
    Resolved(Dependency),
    /// The record still needs the newest version and feature table of
    /// the crate it names.
    NeedsVersionLookup(Dependency),
}

/// Spec-level image of a [`Resolution`].
pub ghost enum ResolutionView {
    Resolved(DepView),
    NeedsVersionLookup(DepView),
}

impl View for Resolution {
    type V = ResolutionView;

    open spec fn view(&self) -> ResolutionView {
        match self {
            Resolution::Resolved(d) => ResolutionView::Resolved(d@),
            Resolution::NeedsVersionLookup(d) => ResolutionView::NeedsVersionLookup(d@),
        }
    }
}

/// Spec-level image of a resolution result.
pub open spec fn res_view(r: Result<Resolution, EditError>) -> Result<ResolutionView, EditError> {
    match r {
        Ok(res) => Ok(res@),
        Err(e) => Err(e),
    }
}

/// What resolving `s` must come to, given the manifest and the
/// workspace, with no network at hand.
pub open spec fn spec_resolution(
    a: AddArgs,
    s: DependencySpecView,
    path_name: Option<Seq<char>>,
    m: crate::manifest::ManifestView,
    members: Seq<MemberView>,
) -> Result<ResolutionView, EditError> {
    match s.kind {
        SpecKindView::PkgId { name, version_req: Some(req) } => {
            if a.git is Some {
                Err(EditError::ConflictingGitAndVersion)
            } else {
                Ok(
                    ResolutionView::Resolved(
                        apply_inline(
                            s.inline_features,
                            apply_registry(
                                a,
                                spec_populate(
                                    a,
                                    (DepView { version_req: Some(req), ..base_dep(name) }),
                                ),
                            ),
                        ),
                    ),
                )
            }
        },
        SpecKindView::PkgId { name, version_req: None } => {
            let d0 = spec_populate(a, base_dep(name));
            match a.git {
                Some(repo) => Ok(
                    ResolutionView::Resolved(
                        apply_inline(
                            s.inline_features,
                            apply_registry(
                                a,
                                (DepView {
                                    source: SourceView::Git {
                                        repo: repo@,
                                        branch: crate::dep::opt_view(a.branch),
                                        tag: crate::dep::opt_view(a.tag),
                                        rev: crate::dep::opt_view(a.rev),
                                    },
                                    ..d0
                                }),
                            ),
                        ),
                    ),
                ),
                None => match spec_existing(m, dep_key(d0), a.spec_section()) {
                    Some(old) => Ok(
                        ResolutionView::Resolved(
                            apply_inline(
                                s.inline_features,
                                apply_registry(a, spec_populate(a, old)),
                            ),
                        ),
                    ),
                    None => {
                        let mi = first_member_by_name(members, name);
                        if mi < members.len() {
                            Ok(
                                ResolutionView::Resolved(
                                    apply_inline(
                                        s.inline_features,
                                        apply_registry(
                                            a,
                                            (DepView {
                                                source: SourceView::Path {
                                                    path: parent_of(members[mi].manifest_path),
                                                },
                                                version_req: if a.dev {
                                                    None
                                                } else {
                                                    Some(members[mi].version)
                                                },
                                                ..d0
                                            }),
                                        ),
                                    ),
                                ),
                            )
                        } else {
                            Ok(
                                ResolutionView::NeedsVersionLookup(
                                    apply_inline(s.inline_features, apply_registry(a, d0)),
                                ),
                            )
                        }
                    },
                },
            }
        },
        SpecKindView::LocalPath { path } => {
            let name = match path_name {
                Some(n) => n,
                None => Seq::empty(),
            };
            let d0 = spec_populate(
                a,
                (DepView { source: SourceView::Path { path }, ..base_dep(name) }),
            );
            let d1 = match spec_existing(m, dep_key(d0), a.spec_section()) {
                Some(old) => {
                    if old.source == (SourceView::Path { path }) {
                        DepView { version_req: old.version_req, ..d0 }
                    } else {
                        d0
                    }
                },
                None => {
                    let mi = first_member_by_dir(members, path);
                    if !a.dev && mi < members.len() {
                        DepView { version_req: Some(members[mi].version), ..d0 }
                    } else {
                        d0
                    }
                },
            };
            Ok(ResolutionView::Resolved(apply_inline(s.inline_features, apply_registry(a, d1))))
        },
    }
}

/// A spec with an explicit version requirement resolves to a registry
/// record that keeps the requirement verbatim, and never asks for a
/// lookup; only a git source beside it makes it fail.
pub proof fn lemma_explicit_version_kept(
    a: AddArgs,
    s: DependencySpecView,
    path_name: Option<Seq<char>>,
    m: crate::manifest::ManifestView,
    members: Seq<MemberView>,
    name: Seq<char>,
    req: Seq<char>,
)
    requires
        s.kind == (SpecKindView::PkgId { name, version_req: Some(req) }),
        a.git is None,
    ensures
        spec_resolution(a, s, path_name, m, members) matches Ok(rv) && rv matches
            ResolutionView::Resolved(d) && d.version_req == Some(req) && d.source matches
            SourceView::Registry { .. },
{
}

/// Split every element of an out-of-band feature list.
pub fn flatten_features(v: &Vec<String>) -> (r: Vec<String>)
    ensures
        r.deep_view() == flat_feats(v.deep_view()),
{
    let ghost dv = v.deep_view();
    let mut r: Vec<String> = Vec::new();
    let mut i: usize = 0;
    proof {
        assert(dv.skip(0) =~= dv);
    }
    while i < v.len()
        invariant
            i <= v.len(),
            dv == v.deep_view(),
            dv.len() == v.len(),
            r.deep_view() + flat_feats(dv.skip(i as int)) =~= flat_feats(dv),
        decreases v.len() - i,
    {
        let ghost r0 = r.deep_view();
        assert(dv[i as int] == v[i as int]@);
        let mut chunk = crate::parse::parse_feature(v[i].as_str());
        let ghost cv = chunk.deep_view();
        r.append(&mut chunk);
        proof {
            assert(r.deep_view() =~= r0 + cv);
            assert(dv.skip(i as int).skip(1) =~= dv.skip(i as int + 1));
            assert(dv.skip(i as int)[0] == dv[i as int]);
            assert(flat_feats(dv.skip(i as int)) == split_feats(dv[i as int]) + flat_feats(
                dv.skip(i as int + 1),
            ));
            assert((r0 + cv) + flat_feats(dv.skip(i as int + 1)) =~= r0 + (cv + flat_feats(
                dv.skip(i as int + 1),
            )));
        }
        i = i + 1;
    }
    proof {
        assert(dv.skip(dv.len() as int) =~= Seq::<Seq<char>>::empty());
        assert(r.deep_view() + flat_feats(dv.skip(dv.len() as int)) =~= r.deep_view());
    }
    r
}

impl AddArgs {
    /// Apply the command's tri-state modifiers to a record.
    pub fn populate_dependency(&self, dep: Dependency) -> (r: Dependency)
        requires
            !(self.default_features && self.no_default_features),
            !(self.optional && self.no_optional),
        ensures
            r@ == spec_populate(*self, dep@),
    {
        let mut d = dep;
        match self.optional() {
            Some(b) => {
                d.optional = Some(b);
            },
            None => {},
        }
        match self.default_features() {
            Some(b) => {
                d.default_features = Some(b);
            },
            None => {},
        }
        match &self.features {
            Some(v) => {
                d.features = Some(flatten_features(v));
            },
            None => {},
        }
        match &self.rename {
            Some(rn) => {
                d.rename = Some(rn.clone());
            },
            None => {},
        }
        d
    }
}

/// Replace the registry name when the command names one and the record
/// draws from a registry.
fn override_registry(args: &AddArgs, dep: Dependency) -> (r: Dependency)
    ensures
        r@ == apply_registry(*args, dep@),
{
    let mut d = dep;
    match &args.registry {
        Some(reg) => {
            let is_registry = match &d.source {
                DepSource::Registry { .. } => true,
                _ => false,
            };
            if is_registry {
                d.source = DepSource::Registry { registry: Some(reg.clone()) };
            }
        },
        None => {},
    }
    d
}

/// Extend the requested features with the spec's inline ones.
fn merge_inline(inline: &Vec<String>, dep: Dependency) -> (r: Dependency)
    ensures
        r@ == apply_inline(inline.deep_view(), dep@),
{
    let mut d = dep;
    if inline.len() > 0 {
        let mut add = clone_string_vec(inline);
        let merged = match d.features {
            Some(mut v) => {
                let ghost v0 = v.deep_view();
                v.append(&mut add);
                assert(v.deep_view() =~= v0 + inline.deep_view());
                v
            },
            None => {
                assert(add.deep_view() =~= inline.deep_view());
                add
            },
        };
        d.features = Some(merged);
    }
    d
}

/// The first workspace member named `name`, if any.
fn find_member_by_name<'a>(members: &'a Vec<WorkspaceMember>, name: &String) -> (r: Option<
    &'a WorkspaceMember,
>)
    ensures
        ({
            let ms = members@.map_values(|mm: WorkspaceMember| mm@);
            let mi = first_member_by_name(ms, name@);
            match r {
                Some(mem) => mi < ms.len() && mem@ == ms[mi],
                None => mi == ms.len(),
            }
        }),
{
    let ghost ms = members@.map_values(|mm: WorkspaceMember| mm@);
    let mut i: usize = 0;
    while i < members.len()
        invariant
            i <= members.len(),
            ms == members@.map_values(|mm: WorkspaceMember| mm@),
            ms.len() == members.len(),
            forall|j: int| 0 <= j < i ==> (#[trigger] ms[j]).name != name@,
        decreases members.len() - i,
    {
        assert(ms[i as int] == members[i as int]@);
        if string_eq(&members[i].name, name) {
            proof {
                lemma_first_member_by_name(ms, name@, i as int);
            }
            return Some(&members[i]);
        }
        i = i + 1;
    }
    proof {
        lemma_first_member_by_name(ms, name@, ms.len() as int);
    }
    None
}

/// The first workspace member whose directory is `dir`, if any.
fn find_member_by_dir<'a>(members: &'a Vec<WorkspaceMember>, dir: &String) -> (r: Option<
    &'a WorkspaceMember,
>)
    ensures
        ({
            let ms = members@.map_values(|mm: WorkspaceMember| mm@);
            let mi = first_member_by_dir(ms, dir@);
            match r {
                Some(mem) => mi < ms.len() && mem@ == ms[mi],
                None => mi == ms.len(),
            }
        }),
{
    let ghost ms = members@.map_values(|mm: WorkspaceMember| mm@);
    let mut i: usize = 0;
    while i < members.len()
        invariant
            i <= members.len(),
            ms == members@.map_values(|mm: WorkspaceMember| mm@),
            ms.len() == members.len(),
            forall|j: int| 0 <= j < i ==> parent_of((#[trigger] ms[j]).manifest_path) != dir@,
        decreases members.len() - i,
    {
        assert(ms[i as int] == members[i as int]@);
        let d = parent_dir(members[i].manifest_path.as_str());
        if string_eq(&d, dir) {
            proof {
                lemma_first_member_by_dir(ms, dir@, i as int);
            }
            return Some(&members[i]);
        }
        i = i + 1;
    }
    proof {
        lemma_first_member_by_dir(ms, dir@, ms.len() as int);
    }
    None
}

impl AddArgs {
    /// Resolve one spec against the manifest and the workspace.
    ///
    /// For a spec with an explicit version requirement the requirement
    /// is kept verbatim and no lookup of any kind is requested; a git
    /// source beside it fails with
    /// [`EditError::ConflictingGitAndVersion`]. A bare name inherits
    /// from the manifest entry the lookup selects, else from a
    /// workspace member of that name, and only as a last resort asks
    /// for a registry lookup. A path spec needs `path_name`, the name
    /// of the package at that path.
    pub fn resolve_spec(
        &self,
        spec: &crate::dep::DependencySpec,
        path_name: Option<&String>,
        manifest: &Manifest,
        members: &Vec<WorkspaceMember>,
    ) -> (r: Result<Resolution, EditError>)
        requires
            self.wf(),
            manifest@.wf(),
            (spec.kind matches SpecKind::LocalPath { .. } ==> path_name is Some),
        ensures
            res_view(r) == spec_resolution(
                *self,
                spec@,
                match path_name {
                    Some(n) => Some(n@),
                    None => None,
                },
                manifest@,
                members@.map_values(|mm: WorkspaceMember| mm@),
            ),
    {
        let ghost ms = members@.map_values(|mm: WorkspaceMember| mm@);
        let section = self.section();
        match &spec.kind {
            SpecKind::PkgId { name, version_req: Some(req) } => {
                if matches!(&self.git, Some(_)) {
                    return Err(EditError::ConflictingGitAndVersion);
                }
                let mut d = Dependency::new(name.clone());
                d.version_req = Some(req.clone());
                let d = self.populate_dependency(d);
                let d = override_registry(self, d);
                let d = merge_inline(&spec.inline_features, d);
                Ok(Resolution::Resolved(d))
            },
            SpecKind::PkgId { name, version_req: None } => {
                let d = Dependency::new(name.clone());
                let d = self.populate_dependency(d);
                match &self.git {
                    Some(repo) => {
                        let mut d = d;
                        d.source = DepSource::Git {
                            repo: repo.clone(),
                            branch: clone_opt_string(&self.branch),
                            tag: clone_opt_string(&self.tag),
                            rev: clone_opt_string(&self.rev),
                        };
                        let d = override_registry(self, d);
                        let d = merge_inline(&spec.inline_features, d);
                        Ok(Resolution::Resolved(d))
                    },
                    None => {
                        let key = d.toml_key().clone();
                        match find_existing_dependency(manifest, &key, &section) {
                            Some(old) => {
                                let d = self.populate_dependency(old);
                                let d = override_registry(self, d);
                                let d = merge_inline(&spec.inline_features, d);
                                Ok(Resolution::Resolved(d))
                            },
                            None => {
                                match find_member_by_name(members, name) {
                                    Some(mem) => {
                                        let mut d = d;
                                        d.source = DepSource::Path {
                                            path: parent_dir(mem.manifest_path.as_str()),
                                        };
                                        if !self.dev {
                                            d.version_req = Some(mem.version.clone());
                                        }
                                        let d = override_registry(self, d);
                                        let d = merge_inline(&spec.inline_features, d);
                                        Ok(Resolution::Resolved(d))
                                    },
                                    None => {
                                        let d = override_registry(self, d);
                                        let d = merge_inline(&spec.inline_features, d);
                                        Ok(Resolution::NeedsVersionLookup(d))
                                    },
                                }
                            },
                        }
                    },
                }
            },
            SpecKind::LocalPath { path } => {
                let name = match path_name {
                    Some(n) => n.clone(),
                    None => String::new(),
                };
                let mut d = Dependency::new(name);
                d.source = DepSource::Path { path: path.clone() };
                let mut d = self.populate_dependency(d);
                let key = d.toml_key().clone();
                match find_existing_dependency(manifest, &key, &section) {
                    Some(old) => {
                        let same_path = match &old.source {
                            DepSource::Path { path: p } => string_eq(p, path),
                            _ => false,
                        };
                        if same_path {
                            d.version_req = clone_opt_string(&old.version_req);
                        }
                    },
                    None => {
                        if !self.dev {
                            match find_member_by_dir(members, path) {
                                Some(mem) => {
                                    d.version_req = Some(mem.version.clone());
                                },
                                None => {},
                            }
                        }
                    },
                }
                let d = override_registry(self, d);
                let d = merge_inline(&spec.inline_features, d);
                Ok(Resolution::Resolved(d))
            },
        }
    }
}

/// Finish a resolution that waited on the registry: take over the
/// canonical name, the picked version, and the feature table. A lookup
/// that did not answer fails with [`EditError::VersionLookupFailed`].
pub fn apply_version_lookup(dep: Dependency, lookup: Option<LatestInfo>) -> (r: Result<
    Dependency,
    EditError,
>)
    ensures
        lookup is None ==> r == Err::<Dependency, EditError>(EditError::VersionLookupFailed),
        lookup matches Some(l) ==> r matches Ok(d) && d@ == (DepView {
            name: l.name@,
            version_req: Some(l.version@),
            available_features: rows_view(l.available_features@),
            ..dep@
        }),
{
    match lookup {
        Some(l) => {
            let mut d = dep;
            d.name = l.name;
            d.version_req = Some(l.version);
            d.available_features = l.available_features;
            Ok(d)
        },
        None => Err(EditError::VersionLookupFailed),
    }
}

/// Where a record's available-feature table must come from.
#[derive(Debug)]
pub enum FeatureFetch {
    /// Read the manifest in that directory.
    FromPath(String),
    /// Read the manifest of that repository.
    FromGit(String),
    /// Ask the registry about that crate and version.
    FromRegistry { name: String, version: String },
    /// Nothing to fetch.
    NoFetch,
}

/// What fetching the table for `dep` takes: nothing when the record
/// already has one or names no version, else whatever its source says.
pub fn feature_fetch_request(dep: &Dependency) -> (r: FeatureFetch)
    ensures
        dep@.available_features.len() > 0 ==> r is NoFetch,
        dep@.available_features.len() == 0 ==> match dep@.source {
            SourceView::Path { path } => r matches FeatureFetch::FromPath(p) && p@ == path,
            SourceView::Git { repo, .. } => r matches FeatureFetch::FromGit(g) && g@ == repo,
            SourceView::Registry { .. } => match dep@.version_req {
                Some(v) => r matches FeatureFetch::FromRegistry { name, version } && name@
                    == dep@.name && version@ == v,
                None => r is NoFetch,
            },
        },
{
    if dep.available_features.len() > 0 {
        return FeatureFetch::NoFetch;
    }
    assert(rows_view(dep.available_features@).len() == 0);
    match &dep.source {
        DepSource::Path { path } => FeatureFetch::FromPath(path.clone()),
        DepSource::Git { repo, .. } => FeatureFetch::FromGit(repo.clone()),
        DepSource::Registry { .. } => match &dep.version_req {
            Some(v) => FeatureFetch::FromRegistry { name: dep.name.clone(), version: v.clone() },
            None => FeatureFetch::NoFetch,
        },
    }
}

/// Give a record its available-feature table; one it already has is
/// kept.
pub fn populate_available_features(dep: Dependency, fetched: Vec<FeatureRow>) -> (r: Dependency)
    ensures
        dep@.available_features.len() == 0 ==> r@ == (DepView {
            available_features: rows_view(fetched@),
            ..dep@
        }),
        dep@.available_features.len() > 0 ==> r@ == dep@,
{
    let mut d = dep;
    if d.available_features.len() == 0 {
        assert(rows_view(d.available_features@).len() == 0);
        d.available_features = fetched;
    }
    d
}

} // verus!

