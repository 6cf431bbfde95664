//! The local version-control workspace as the executors see it.

use vstd::prelude::*;
use crate::error::Error;
use crate::types::GitRemote;

verus! {

/// Operations of the version-control workspace.
///
/// Nothing is promised of what a call returns: the functions that call a
/// workspace state what holds for every answer.
pub trait Workspace {
    /// Push a bookmark to a remote
    fn git_push(&mut self, bookmark: &str, remote: &str) -> Result<(), Error>;

    /// Fetch from a remote
    fn git_fetch(&mut self, remote: &str) -> Result<(), Error>;

    /// Rebase a bookmark and what is stacked on it onto trunk
    fn rebase_bookmark_onto_trunk(&mut self, bookmark: &str) -> Result<(), Error>;

    /// Delete a local bookmark
    fn delete_bookmark(&mut self, bookmark: &str) -> Result<(), Error>;

    /// The name of the trunk's branch
    fn default_branch(&self) -> Result<String, Error>;

    /// The remotes of the repository
    fn git_remotes(&self) -> Result<Vec<GitRemote>, Error>;
}

} // verus!
