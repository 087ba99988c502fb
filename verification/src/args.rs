//! The flag sets of the two editing commands, stripped of any
//! presentation concerns.

use vstd::prelude::*;

use crate::manifest::{DepSection, SectionView};

verus! {

/// Gates for behaviour that is not yet stable.
#[derive(Debug, Clone, Copy, PartialEq, Eq, Structural)]
pub enum UnstableOptions {
    /// Allows `--git` sources.
    Git,
    /// Allows `+feature` tokens.
    InlineAdd,
}

/// Turn a yes/no flag pair into a tri-state: `None` when neither flag
/// was given. The two flags exclude each other.
pub fn resolve_bool_arg(yes: bool, no: bool) -> (r: Option<bool>)
    requires
        !(yes && no),
    ensures
        yes ==> r == Some(true),
        no ==> r == Some(false),
        !yes && !no ==> r is None,
{
    match (yes, no) {
        (true, false) => Some(true),
        (false, true) => Some(false),
        _ => None,
    }
}

/// Flags of the command that adds dependencies.
#[derive(Debug)]
pub struct AddArgs {
    /// Raw crate tokens: `name`, `name@req`, a path, or `+feature`.
    pub crates: Vec<String>,
    pub no_default_features: bool,
    pub default_features: bool,
    /// Space- or comma-separated feature lists given out of band.
    pub features: Option<Vec<String>>,
    pub optional: bool,
    pub no_optional: bool,
    pub rename: Option<String>,
    pub registry: Option<String>,
    pub dev: bool,
    pub build: bool,
    pub target: Option<String>,
    pub manifest_path: Option<String>,
    pub pkgid: Option<String>,
    pub offline: bool,
    pub dry_run: bool,
    pub quiet: bool,
    pub unstable_features: Vec<UnstableOptions>,
    pub git: Option<String>,
    pub branch: Option<String>,
    pub tag: Option<String>,
    pub rev: Option<String>,
}

impl AddArgs {
    /// The flag conflicts a front end must already have enforced:
    /// dev, build and target exclude each other; the boolean pairs
    /// exclude each other; optional conflicts with dev; a registry or a
    /// version modifier conflicts with git; branch, tag and rev each
    /// need git and exclude each other; a target may not be empty.
    pub open spec fn wf(self) -> bool {
        &&& !(self.dev && self.build)
        &&& !(self.dev && self.target is Some)
        &&& !(self.build && self.target is Some)
        &&& !(self.default_features && self.no_default_features)
        &&& !(self.optional && self.no_optional)
        &&& !(self.optional && self.dev)
        &&& !(self.registry is Some && self.git is Some)
        &&& self.branch is Some ==> self.git is Some
        &&& self.tag is Some ==> self.git is Some
        &&& self.rev is Some ==> self.git is Some
        &&& !(self.branch is Some && self.tag is Some)
        &&& !(self.branch is Some && self.rev is Some)
        &&& !(self.tag is Some && self.rev is Some)
        &&& (self.target matches Some(t) ==> t@.len() > 0)
    }

    /// The section the flags select.
    pub open spec fn spec_section(self) -> SectionView {
        if self.dev {
            SectionView::Dev
        } else if self.build {
            SectionView::Build
        } else {
            match self.target {
                Some(t) => SectionView::Target(t@),
                None => SectionView::Runtime,
            }
        }
    }

    /// The dependency table the flags select.
    pub fn section(&self) -> (s: DepSection)
        ensures
            s@ == self.spec_section(),
    {
        if self.dev {
            DepSection::Dev
        } else if self.build {
            DepSection::Build
        } else {
            match &self.target {
                Some(t) => DepSection::Target(t.clone()),
                None => DepSection::Runtime,
            }
        }
    }

    /// The path of nested table names the selected section lives under.
    pub fn get_section(&self) -> (r: Vec<String>)
        requires
            self.target matches Some(t) ==> t@.len() > 0,
        ensures
            r.deep_view() == spec_section_path(self.spec_section()),
    {
        let mut r: Vec<String> = Vec::new();
        if self.dev {
            r.push("dev-dependencies".to_owned());
            assert(r.deep_view() =~= spec_section_path(self.spec_section()));
        } else if self.build {
            r.push("build-dependencies".to_owned());
            assert(r.deep_view() =~= spec_section_path(self.spec_section()));
        } else {
            match &self.target {
                Some(t) => {
                    r.push("target".to_owned());
                    r.push(t.clone());
                    r.push("dependencies".to_owned());
                    assert(r.deep_view() =~= spec_section_path(self.spec_section()));
                },
                None => {
                    r.push("dependencies".to_owned());
                    assert(r.deep_view() =~= spec_section_path(self.spec_section()));
                },
            }
        }
        r
    }

    /// What the default-feature flag pair asks for.
    pub fn default_features(&self) -> (r: Option<bool>)
        requires
            !(self.default_features && self.no_default_features),
        ensures
            self.default_features ==> r == Some(true),
            self.no_default_features ==> r == Some(false),
            !self.default_features && !self.no_default_features ==> r is None,
    {
        resolve_bool_arg(self.default_features, self.no_default_features)
    }

    /// What the optional flag pair asks for.
    pub fn optional(&self) -> (r: Option<bool>)
        requires
            !(self.optional && self.no_optional),
        ensures
            self.optional ==> r == Some(true),
            self.no_optional ==> r == Some(false),
            !self.optional && !self.no_optional ==> r is None,
    {
        resolve_bool_arg(self.optional, self.no_optional)
    }

    /// A git source demands its unstable gate.
    pub fn check_git_gate(&self) -> (r: Result<(), crate::errors::EditError>)
        ensures
            r is Err <==> (self.git is Some && !self.unstable_features@.contains(
                UnstableOptions::Git,
            )),
            r is Err ==> r == Err::<(), crate::errors::EditError>(
                crate::errors::EditError::UnstableGitFlag,
            ),
    {
        let has_git = match &self.git {
            Some(_) => true,
            None => false,
        };
        if has_git && !self.has_unstable(UnstableOptions::Git) {
            Err(crate::errors::EditError::UnstableGitFlag)
        } else {
            Ok(())
        }
    }

    /// Whether the given gate is switched on.
    pub fn has_unstable(&self, opt: UnstableOptions) -> (r: bool)
        ensures
            r == self.unstable_features@.contains(opt),
    {
        let mut i: usize = 0;
        while i < self.unstable_features.len()
            invariant
                i <= self.unstable_features.len(),
                forall|j: int| 0 <= j < i ==> self.unstable_features@[j] != opt,
            decreases self.unstable_features.len() - i,
        {
            if self.unstable_features[i] == opt {
                return true;
            }
            i = i + 1;
        }
        false
    }
}

/// The path of table names of each section kind.
pub open spec fn spec_section_path(s: SectionView) -> Seq<Seq<char>> {
    match s {
        SectionView::Runtime => seq!["dependencies"@],
        SectionView::Dev => seq!["dev-dependencies"@],
        SectionView::Build => seq!["build-dependencies"@],
        SectionView::Target(t) => seq!["target"@, t, "dependencies"@],
    }
}

impl Default for AddArgs {
    /// An offline invocation that adds the crate `demo` to the runtime
    /// table with no modifiers.
    fn default() -> (d: AddArgs)
        ensures
            d.wf(),
            d.crates.deep_view() == seq!["demo"@],
            d.features is None && d.rename is None && d.registry is None,
            d.git is None && d.branch is None && d.tag is None && d.rev is None,
            !d.dev && !d.build && d.target is None,
            !d.optional && !d.no_optional && !d.default_features && !d.no_default_features,
            d.manifest_path is None && d.pkgid is None,
            d.offline && !d.dry_run && !d.quiet,
            d.unstable_features@.len() == 0,
    {
        let mut crates: Vec<String> = Vec::new();
        crates.push("demo".to_owned());
        let d = AddArgs {
            crates,
            no_default_features: false,
            default_features: false,
            features: None,
            optional: false,
            no_optional: false,
            rename: None,
            registry: None,
            dev: false,
            build: false,
            target: None,
            manifest_path: None,
            pkgid: None,
            offline: true,
            dry_run: false,
            quiet: false,
            unstable_features: Vec::new(),
            git: None,
            branch: None,
            tag: None,
            rev: None,
        };
        assert(d.crates.deep_view() =~= seq!["demo"@]);
        d
    }
}

/// Flags of the command that removes dependencies.
#[derive(Debug)]
pub struct RmArgs {
    /// Keys of the entries to remove.
    pub crates: Vec<String>,
    pub dev: bool,
    pub build: bool,
    pub manifest_path: Option<String>,
    pub pkgid: Option<String>,
    pub quiet: bool,
}

impl RmArgs {
    /// dev and build exclude each other, as do the two ways of naming
    /// the manifest.
    pub open spec fn wf(self) -> bool {
        &&& !(self.dev && self.build)
        &&& !(self.manifest_path is Some && self.pkgid is Some)
    }

    /// The section the flags select.
    pub open spec fn spec_section(self) -> SectionView {
        if self.dev {
            SectionView::Dev
        } else if self.build {
            SectionView::Build
        } else {
            SectionView::Runtime
        }
    }

    /// The dependency table the flags select.
    pub fn section(&self) -> (s: DepSection)
        ensures
            s@ == self.spec_section(),
    {
        if self.dev {
            DepSection::Dev
        } else if self.build {
            DepSection::Build
        } else {
            DepSection::Runtime
        }
    }

    /// The name of the table the flags select.
    pub fn get_section(&self) -> (r: &'static str)
        ensures
            r@ == spec_section_path(self.spec_section())[0],
    {
        if self.dev {
            "dev-dependencies"
        } else if self.build {
            "build-dependencies"
        } else {
            "dependencies"
        }
    }
}

/// A whole invocation: which command runs, with which flags.
#[derive(Debug)]
pub enum Command {
    Add(AddArgs),
    Rm(RmArgs),
}

} // verus!
