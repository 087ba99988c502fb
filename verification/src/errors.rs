//! Error and warning taxonomy of the editing engine.

use vstd::prelude::*;

verus! {

/// Why an invocation failed before or during manifest mutation.
///
/// A failure during resolution aborts the whole batch before any mutation;
/// a failure during mutation stops the loop before anything is flushed, so
/// callers never persist a half-edited document.
#[derive(Debug, Clone, Copy, PartialEq, Eq, Structural)]
pub enum EditError {
    /// Several crates were named together with a modifier (git source,
    /// rename, or a feature-list flag) that is unambiguous only for a
    /// single crate.
    AmbiguousBatchArguments,
    /// A `+feature` token appeared before any crate token it could
    /// attach to.
    DanglingFeatureToken,
    /// A git source and an explicit version requirement were both given
    /// for the same crate.
    ConflictingGitAndVersion,
    /// A crate token had an empty name or an empty version requirement.
    InvalidCrateSpec,
    /// A git source was requested without the unstable gate that
    /// enables it.
    UnstableGitFlag,
    /// The dependency would point the package at its own directory.
    SelfDependency,
    /// The registry lookup needed to pick a version did not answer.
    VersionLookupFailed,
    /// The dependency to remove is not present in the target table.
    KeyNotFound,
}

/// A non-fatal notice produced while resolving or committing; rendering
/// is left to the caller.
#[derive(Debug, PartialEq, Eq)]
pub enum Warning {
    /// The `+feature` syntax was used without its unstable gate.
    UnstableInlineAdd,
    /// Requested features that the dependency does not offer, in
    /// lexicographic order.
    UnrecognizedFeatures(Vec<String>),
    /// The run stopped before writing because a dry run was requested.
    DryRun,
}

} // verus!
