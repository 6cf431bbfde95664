//! The code-hosting platform as the planners and executors see it.

pub mod detection;
pub mod github;
pub mod gitlab;
pub mod readiness;

pub use detection::{
    detect_platform, detect_platform_with_hosts, parse_repo_info, parse_repo_info_with_hosts,
};

use vstd::prelude::*;
use crate::error::Error;
use crate::types::MergeMethod;
use crate::types::MergeReadiness;
use crate::types::MergeResult;
use crate::types::PlatformConfig;
use crate::types::PrComment;
use crate::types::PullRequest;
use crate::types::PullRequestDetails;

verus! {

/// Pull-request operations of a platform.
///
/// The same planning and execution logic works with each platform that
/// offers these operations. Nothing is promised of what a call returns: the
/// functions that call a platform state what holds for every answer.
pub trait PlatformService {
    /// Find an existing open PR for a head branch
    fn find_existing_pr(&self, head_branch: &str) -> Result<Option<PullRequest>, Error>;

    /// Create a new PR that is no draft and has no body.
    ///
    /// Unless a service does it otherwise, this is
    /// [`create_pr_with_options`](Self::create_pr_with_options) with the same
    /// head, base and title, without a body and not as a draft: the result is
    /// one that that call gives for these arguments.
    fn create_pr(&self, head: &str, base: &str, title: &str) -> (r: Result<PullRequest, Error>)
        default_ensures
            call_ensures(
                Self::create_pr_with_options,
                (self, head, base, title, None::<&str>, false),
                r,
            ),
    {
        self.create_pr_with_options(head, base, title, None, false)
    }

    /// Create a new PR with explicit body and draft options.
    fn create_pr_with_options(
        &self,
        head: &str,
        base: &str,
        title: &str,
        body: Option<&str>,
        draft: bool,
    ) -> Result<PullRequest, Error>;

    /// Update the base branch of an existing PR
    fn update_pr_base(&self, pr_number: u64, new_base: &str) -> Result<PullRequest, Error>;

    /// Publish a draft PR (make it ready)
    fn publish_pr(&self, pr_number: u64) -> Result<PullRequest, Error>;

    /// List comments on a PR
    fn list_pr_comments(&self, pr_number: u64) -> Result<Vec<PrComment>, Error>;

    /// Create a comment on a PR
    fn create_pr_comment(&self, pr_number: u64, body: &str) -> Result<(), Error>;

    /// Update an existing comment on a PR
    fn update_pr_comment(&self, pr_number: u64, comment_id: u64, body: &str) -> Result<
        (),
        Error,
    >;

    /// Get the platform configuration
    fn config(&self) -> &PlatformConfig;

    /// Get PR details including body and state
    fn get_pr_details(&self, pr_number: u64) -> Result<PullRequestDetails, Error>;

    /// Check approval, CI and conflicts of a PR
    fn check_merge_readiness(&self, pr_number: u64) -> Result<MergeReadiness, Error>;

    /// Merge a PR with the given method
    fn merge_pr(&self, pr_number: u64, method: MergeMethod) -> Result<MergeResult, Error>;
}

} // verus!
