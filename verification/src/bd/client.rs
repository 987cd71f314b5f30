//! The client through which the library talks to `bd`.
use vstd::prelude::*;
use crate::bd::error::BdError;
use crate::bd::types::{BdVersion, Issue, IssueDetail};
use crate::path::FsPath;

verus! {

/// The raw report of one `bd repo sync`.
#[derive(Debug, PartialEq, Eq)]
pub struct RepoSyncReport {
    pub output: String,
}

impl Clone for RepoSyncReport {
    fn clone(&self) -> (res: RepoSyncReport)
        ensures
            res == *self,
    {
        RepoSyncReport { output: self.output.clone() }
    }
}

/// The `bd` operations that the dashboard uses. What a method returns is up to
/// the implementation: nothing is assumed of it.
pub trait BdClient {
    /// The version of the program.
    fn version(&self) -> Result<BdVersion, BdError>;

    /// Creates a workspace in `dir`.
    fn init(&self, dir: &FsPath, prefix: &str) -> Result<(), BdError>;

    /// Registers a repository with the hub.
    fn repo_add(&self, hub: &FsPath, repo_path: &FsPath) -> Result<(), BdError>;

    /// Exports a repository to its own issue file.
    fn export(&self, repo: &FsPath) -> Result<(), BdError>;

    /// Exports a repository to `output`.
    fn export_to(&self, repo: &FsPath, output: &FsPath) -> Result<(), BdError>;

    /// The prefix of a repository's issue ids.
    fn issue_prefix(&self, repo: &FsPath) -> Result<String, BdError>;

    /// Hydrates the hub from every registered repository.
    fn repo_sync(&self, hub: &FsPath) -> Result<RepoSyncReport, BdError>;

    /// The hub's ready issues.
    fn ready(&self, hub: &FsPath) -> Result<Vec<Issue>, BdError>;

    /// One issue in full.
    fn show(&self, hub: &FsPath, id: &str) -> Result<IssueDetail, BdError>;

    /// The hub's issues that match a query.
    fn search(&self, hub: &FsPath, query: &str) -> Result<Vec<Issue>, BdError>;
}

} // verus!
