//! Error kinds of the synchronization pipeline.

use vstd::prelude::*;

verus! {

/// Failure of a version-control synchronization attempt.
#[derive(Debug, Clone, PartialEq, Eq)]
pub enum GitError {
    /// A three-way merge produced unresolved conflicts; the working tree is
    /// left checked out with the conflicting paths for manual resolution.
    MergeConflicts,
    /// Local and fetched histories share no common ancestor, so no merge
    /// base exists for a three-way merge.
    NoCommonAncestor,
    /// Fetching remote history failed.
    FetchFailed,
}

/// Per-operation failure of the package pipeline.
#[derive(Debug, Clone, PartialEq, Eq)]
pub enum AURError {
    /// A query field name was not recognized.
    UnrecognizedField(String),
    /// The external build tool exited with a non-zero status.
    InstallFailed,
    /// An option value did not name any variant.
    UnrecognizedVariant,
    /// The external package manager itself could not run or returned an
    /// unexpected status unrelated to "not found".
    PacmanFailed,
    /// The package manager found no installed package of this name.
    NotInstalled(String),
    /// Cloning a remote repository failed.
    CloneFailed(String),
    /// Fetching remote history failed.
    FetchFailed(String),
    /// Reconciling local and remote history produced unresolved conflicts.
    MergeConflicts(String),
}

impl GitError {
    /// The corresponding pipeline error for the package `name`.
    pub fn for_package(&self, name: &String) -> (r: AURError)
        ensures
            *self is MergeConflicts ==> r == AURError::MergeConflicts(*name),
            *self is NoCommonAncestor ==> r == AURError::FetchFailed(*name),
            *self is FetchFailed ==> r == AURError::FetchFailed(*name),
    {
        match self {
            GitError::MergeConflicts => AURError::MergeConflicts(name.clone()),
            GitError::NoCommonAncestor => AURError::FetchFailed(name.clone()),
            GitError::FetchFailed => AURError::FetchFailed(name.clone()),
        }
    }
}

} // verus!
