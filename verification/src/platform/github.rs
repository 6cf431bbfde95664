//! What is decided on the GitHub side: CI state, PR state, and the texts
//! that go into requests.

use vstd::prelude::*;
use vstd::string::StringExecFns;
use crate::platform::readiness::build_readiness;
use crate::platform::readiness::readiness_of;
use crate::text::append_decimal;
use crate::text::decimal;
use crate::text::lemma_deep_view_index;
use crate::text::str_eq;
use crate::types::MergeReadiness;
use crate::types::Platform;
use crate::types::PrState;
use crate::types::PullRequestDetails;

verus! {

/// The state of an issue or PR as GitHub reports it.
#[derive(Debug, Clone, Copy, PartialEq, Eq, Structural)]
pub enum IssueState {
    /// Open
    Open,
    /// Closed, merged or not
    Closed,
    /// A state that is neither of the two
    Other,
}

/// The state of a PR: open where GitHub says so, merged where it is closed
/// and has a time of merging, closed else.
pub open spec fn pr_state_of(state: Option<IssueState>, merged: bool) -> PrState {
    if state == Some(IssueState::Open) {
        PrState::Open
    } else if state == Some(IssueState::Closed) && merged {
        PrState::Merged
    } else {
        PrState::Closed
    }
}

/// The state of a PR from what GitHub reports.
pub fn pr_state(state: Option<IssueState>, merged: bool) -> (r: PrState)
    ensures
        r == pr_state_of(state, merged),
{
    match state {
        Some(IssueState::Open) => PrState::Open,
        Some(IssueState::Closed) => if merged {
            PrState::Merged
        } else {
            PrState::Closed
        },
        _ => PrState::Closed,
    }
}

/// Whether the commit statuses let a merge pass: none is configured, or
/// their combined state is success.
pub fn commit_statuses_passed(state: &str, total_count: u32) -> (r: bool)
    ensures
        r == (total_count == 0 || state@ == "success"@),
{
    total_count == 0 || str_eq(state, "success")
}

/// One check run as GitHub reports it.
#[derive(Debug)]
pub struct CheckRun {
    /// Whether the run is queued, in progress or completed
    pub status: String,
    /// How the run ended, if it has
    pub conclusion: Option<String>,
}

/// What a [`CheckRun`] holds, as plain values.
pub struct CheckRunView {
    pub status: Seq<char>,
    pub conclusion: Option<Seq<char>>,
}

impl View for CheckRun {
    type V = CheckRunView;

    open spec fn view(&self) -> CheckRunView {
        CheckRunView { status: self.status@, conclusion: self.conclusion.deep_view() }
    }
}

impl DeepView for CheckRun {
    type V = CheckRunView;

    open spec fn deep_view(&self) -> CheckRunView {
        self@
    }
}

impl CheckRunView {
    /// A run passes when it is completed and ended in success, or neutral,
    /// or was skipped.
    pub open spec fn passed(self) -> bool {
        self.status == "completed"@ && (self.conclusion == Some("success"@) || self.conclusion
            == Some("neutral"@) || self.conclusion == Some("skipped"@))
    }
}

impl CheckRun {
    /// Whether the run lets a merge pass.
    pub fn passed(&self) -> (r: bool)
        ensures
            r == self@.passed(),
    {
        if !str_eq(self.status.as_str(), "completed") {
            return false;
        }
        match &self.conclusion {
            Some(conclusion) => {
                let text = conclusion.as_str();
                str_eq(text, "success") || str_eq(text, "neutral") || str_eq(text, "skipped")
            },
            None => false,
        }
    }
}

/// Whether the check runs let a merge pass: none is configured, or every
/// one of them passed.
pub open spec fn check_runs_pass(total_count: u32, runs: Seq<CheckRunView>) -> bool {
    total_count == 0 || forall|i: int| 0 <= i < runs.len() ==> (#[trigger] runs[i]).passed()
}

/// Whether the check runs let a merge pass.
pub fn check_runs_passed(total_count: u32, runs: &Vec<CheckRun>) -> (r: bool)
    ensures
        r == check_runs_pass(total_count, runs.deep_view()),
{
    if total_count == 0 {
        return true;
    }
    let mut i: usize = 0;
    while i < runs.len()
        invariant
            total_count != 0,
            i <= runs@.len(),
            forall|j: int| 0 <= j < i ==> (#[trigger] runs.deep_view()[j]).passed(),
        decreases runs@.len() - i,
    {
        proof {
            lemma_deep_view_index(*runs, i as int);
        }
        if !runs[i].passed() {
            proof {
                assert(!runs.deep_view()[i as int].passed());
            }
            return false;
        }
        i += 1;
    }
    true
}

/// Whether CI lets a merge pass: both the commit statuses and the check
/// runs do.
pub fn ci_passed(statuses_passed: bool, check_runs_passed: bool) -> (r: bool)
    ensures
        r == (statuses_passed && check_runs_passed),
{
    statuses_passed && check_runs_passed
}

/// The readiness of a GitHub PR.
pub fn merge_readiness(details: &PullRequestDetails, is_approved: bool, ci_passed: bool) -> (r:
    MergeReadiness)
    ensures
        r@ == readiness_of(Platform::GitHub, details@, is_approved, ci_passed),
{
    build_readiness(Platform::GitHub, details, is_approved, ci_passed)
}

/// The host of the API: `api.github.com`, or the API path on the host of
/// an installation of one's own.
pub open spec fn api_host_of(host: Option<Seq<char>>) -> Seq<char> {
    match host {
        Some(h) => h + "/api/v3"@,
        None => "api.github.com"@,
    }
}

/// The host of the API.
pub fn api_host(host: &Option<String>) -> (r: String)
    ensures
        r@ == api_host_of(host.deep_view()),
{
    match host {
        Some(h) => {
            let mut out = h.clone();
            out.append("/api/v3");
            out
        },
        None => "api.github.com".to_owned(),
    }
}

/// The head by which GitHub finds the PRs of a branch: owner, colon,
/// branch.
pub fn head_filter(owner: &str, head_branch: &str) -> (r: String)
    ensures
        r@ == owner@ + ":"@ + head_branch@,
{
    let mut out = String::new();
    out.append(owner);
    out.append(":");
    out.append(head_branch);
    proof {
        assert(out@ =~= owner@ + ":"@ + head_branch@);
    }
    out
}

/// The title of the commit of a squash merge: the PR's title and number.
pub fn squash_commit_title(title: &str, pr_number: u64) -> (r: String)
    ensures
        r@ == title@ + " (#"@ + decimal(pr_number as nat) + ")"@,
{
    let mut out = String::new();
    out.append(title);
    out.append(" (#");
    append_decimal(&mut out, pr_number);
    out.append(")");
    proof {
        assert(out@ =~= title@ + " (#"@ + decimal(pr_number as nat) + ")"@);
    }
    out
}

} // verus!
