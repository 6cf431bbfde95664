//! Merge readiness as it is put together from what a platform reports.

use vstd::prelude::*;
use crate::text::lemma_deep_view_push;
use crate::types::MergeReadiness;
use crate::types::MergeReadinessView;
use crate::types::Platform;
use crate::types::PullRequestDetails;
use crate::types::PullRequestDetailsView;

verus! {

/// How a platform words the reason that a PR is a draft.
pub open spec fn draft_reason(platform: Platform) -> Seq<char> {
    match platform {
        Platform::GitHub => "PR is a draft"@,
        Platform::GitLab => "MR is a draft"@,
    }
}

/// One reason where `applies`, none else.
pub open spec fn reason_if(applies: bool, reason: Seq<char>) -> Seq<Seq<char>> {
    if applies {
        seq![reason]
    } else {
        seq![]
    }
}

/// The reasons that block a merge, in the order in which they are shown:
/// draft, approval, CI, conflicts.
pub open spec fn blocking_reasons(
    platform: Platform,
    is_draft: bool,
    is_approved: bool,
    ci_passed: bool,
    mergeable: Option<bool>,
) -> Seq<Seq<char>> {
    reason_if(is_draft, draft_reason(platform)) + reason_if(!is_approved, "Not approved"@)
        + reason_if(!ci_passed, "CI not passing"@) + reason_if(
        mergeable == Some(false),
        "Has merge conflicts"@,
    )
}

/// What is uncertain of a merge. On GitHub that is that the platform has
/// not worked out yet whether the PR can be merged. GitLab always knows,
/// so nothing is uncertain there, whatever the details hold.
pub open spec fn uncertainties(platform: Platform, mergeable: Option<bool>) -> Seq<Seq<char>> {
    match platform {
        Platform::GitHub => reason_if(
            mergeable is None,
            "Merge status unknown (GitHub still computing)"@,
        ),
        Platform::GitLab => Seq::empty(),
    }
}

/// The readiness of a PR on `platform`, from its details, its approval
/// and the state of CI.
pub open spec fn readiness_of(
    platform: Platform,
    details: PullRequestDetailsView,
    is_approved: bool,
    ci_passed: bool,
) -> MergeReadinessView {
    MergeReadinessView {
        is_approved,
        ci_passed,
        is_mergeable: details.mergeable,
        is_draft: details.is_draft,
        blocking_reasons: blocking_reasons(
            platform,
            details.is_draft,
            is_approved,
            ci_passed,
            details.mergeable,
        ),
        uncertainties: uncertainties(platform, details.mergeable),
    }
}

/// A PR is blocked exactly when a reason is given for it. Its merge is
/// uncertain exactly when it is on GitHub and its mergeability is unknown.
/// Unknown mergeability gives no blocking reason.
pub proof fn lemma_blocked_has_reason(
    platform: Platform,
    details: PullRequestDetailsView,
    is_approved: bool,
    ci_passed: bool,
)
    ensures
        readiness_of(platform, details, is_approved, ci_passed).is_blocked() <==> readiness_of(
            platform,
            details,
            is_approved,
            ci_passed,
        ).blocking_reasons.len() > 0,
        readiness_of(platform, details, is_approved, ci_passed).uncertainty() is Some <==> (
        platform == Platform::GitHub && details.mergeable is None),
{
}

/// Pushes `reason` where `applies`.
fn push_reason(reasons: &mut Vec<String>, applies: bool, reason: &str)
    ensures
        final(reasons).deep_view() == old(reasons).deep_view() + reason_if(applies, reason@),
{
    if applies {
        let ghost before = *reasons;
        let text = reason.to_owned();
        reasons.push(text);
        proof {
            lemma_deep_view_push(before, *reasons, text);
        }
    }
    proof {
        assert(reasons.deep_view() =~= old(reasons).deep_view() + reason_if(applies, reason@));
    }
}

/// Puts together the readiness of a PR from its details, its approval and
/// the state of CI.
pub fn build_readiness(
    platform: Platform,
    details: &PullRequestDetails,
    is_approved: bool,
    ci_passed: bool,
) -> (r: MergeReadiness)
    ensures
        r@ == readiness_of(platform, details@, is_approved, ci_passed),
{
    let mut reasons: Vec<String> = Vec::new();
    let draft = match platform {
        Platform::GitHub => "PR is a draft",
        Platform::GitLab => "MR is a draft",
    };
    let conflicts = match details.mergeable {
        Some(m) => !m,
        None => false,
    };
    push_reason(&mut reasons, details.is_draft, draft);
    push_reason(&mut reasons, !is_approved, "Not approved");
    push_reason(&mut reasons, !ci_passed, "CI not passing");
    push_reason(&mut reasons, conflicts, "Has merge conflicts");
    let mut unknowns: Vec<String> = Vec::new();
    let unknown = match platform {
        Platform::GitHub => details.mergeable.is_none(),
        Platform::GitLab => false,
    };
    push_reason(&mut unknowns, unknown, "Merge status unknown (GitHub still computing)");
    proof {
        assert(reasons.deep_view() =~= blocking_reasons(
            platform,
            details.is_draft,
            is_approved,
            ci_passed,
            details.mergeable,
        ));
        assert(unknowns.deep_view() =~= uncertainties(platform, details.mergeable));
    }
    MergeReadiness {
        is_approved,
        ci_passed,
        is_mergeable: details.mergeable,
        is_draft: details.is_draft,
        blocking_reasons: reasons,
        uncertainties: unknowns,
    }
}

} // verus!
