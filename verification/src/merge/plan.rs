//! Merge planning: which pull requests to merge, in which order, and where
//! to stop.

use vstd::prelude::*;
use vstd::hash_map::StringHashMap;
use vstd::string::StringExecFns;
use crate::types::MergeMethod;
use crate::types::MergeReadiness;
use crate::types::MergeReadinessView;
use crate::types::PullRequestDetails;
use crate::types::PullRequestDetailsView;
use crate::types::clone_strings;
use crate::submit::analysis::SubmissionAnalysis;
use crate::submit::analysis::bookmark_names;
use crate::text::append_decimal;
use crate::text::append_joined;
use crate::text::decimal;
use crate::text::joined;
use crate::text::lemma_deep_view_index;
use crate::text::lemma_deep_view_push;
use crate::text::lemma_filter_keeps_all;
use crate::text::str_eq;

verus! {

/// What was fetched about the pull request of one bookmark.
#[derive(Debug)]
pub struct PrInfo {
    /// Bookmark name this PR is associated with
    pub bookmark: String,
    /// PR details including title, body, state
    pub details: PullRequestDetails,
    /// Merge readiness check results
    pub readiness: MergeReadiness,
}

/// What a [`PrInfo`] holds, as plain values.
pub struct PrInfoView {
    pub bookmark: Seq<char>,
    pub details: PullRequestDetailsView,
    pub readiness: MergeReadinessView,
}

impl View for PrInfo {
    type V = PrInfoView;

    open spec fn view(&self) -> PrInfoView {
        PrInfoView { bookmark: self.bookmark@, details: self.details@, readiness: self.readiness@ }
    }
}

impl DeepView for PrInfo {
    type V = PrInfoView;

    open spec fn deep_view(&self) -> PrInfoView {
        self@
    }
}

impl Clone for PrInfo {
    fn clone(&self) -> (r: Self)
        ensures
            r@ == self@,
    {
        PrInfo {
            bookmark: self.bookmark.clone(),
            details: self.details.clone(),
            readiness: self.readiness.clone(),
        }
    }
}

/// Fetched pull-request information by bookmark name.
pub type PrInfoMap = StringHashMap<PrInfo>;

/// The views of the entries of a map of pull-request information.
pub open spec fn pr_info_views(m: Map<Seq<char>, PrInfo>) -> Map<Seq<char>, PrInfoView> {
    m.map_values(|i: PrInfo| i@)
}

/// How sure the planner is that a merge will go through.
#[derive(Debug, PartialEq, Eq)]
pub enum MergeConfidence {
    /// All conditions verified: the merge should succeed
    Certain,
    /// Some condition is unknown: the merge may fail
    Uncertain(String),
}

/// What a [`MergeConfidence`] holds, as plain values.
pub enum MergeConfidenceView {
    Certain,
    Uncertain(Seq<char>),
}

impl View for MergeConfidence {
    type V = MergeConfidenceView;

    open spec fn view(&self) -> MergeConfidenceView {
        match self {
            MergeConfidence::Certain => MergeConfidenceView::Certain,
            MergeConfidence::Uncertain(reason) => MergeConfidenceView::Uncertain(reason@),
        }
    }
}

impl Clone for MergeConfidence {
    fn clone(&self) -> (r: Self)
        ensures
            r@ == self@,
    {
        match self {
            MergeConfidence::Certain => MergeConfidence::Certain,
            MergeConfidence::Uncertain(reason) => MergeConfidence::Uncertain(reason.clone()),
        }
    }
}

/// A single step of a merge plan.
#[derive(Debug)]
pub enum MergeStep {
    /// Merge this PR
    Merge {
        /// Bookmark name
        bookmark: String,
        /// PR number
        pr_number: u64,
        /// PR title (for display)
        pr_title: String,
        /// Merge method to use
        method: MergeMethod,
        /// Confidence level for this merge
        confidence: MergeConfidence,
    },
    /// Point this PR's base at trunk before merging it: once the PR below
    /// has been merged, its branch is no base to merge into.
    RetargetBase {
        /// Bookmark name (for display)
        bookmark: String,
        /// PR number to retarget
        pr_number: u64,
        /// Current base branch
        old_base: String,
        /// New base branch (trunk)
        new_base: String,
    },
    /// Leave this PR alone (not ready to merge)
    Skip {
        /// Bookmark name
        bookmark: String,
        /// PR number
        pr_number: u64,
        /// Reasons why this PR cannot be merged
        reasons: Vec<String>,
    },
}

/// What a [`MergeStep`] holds, as plain values.
pub enum MergeStepView {
    Merge {
        bookmark: Seq<char>,
        pr_number: u64,
        pr_title: Seq<char>,
        method: MergeMethod,
        confidence: MergeConfidenceView,
    },
    RetargetBase { bookmark: Seq<char>, pr_number: u64, old_base: Seq<char>, new_base: Seq<char> },
    Skip { bookmark: Seq<char>, pr_number: u64, reasons: Seq<Seq<char>> },
}

impl MergeStepView {
    /// The bookmark that the step is about.
    pub open spec fn bookmark_name(self) -> Seq<char> {
        match self {
            MergeStepView::Merge { bookmark, .. } => bookmark,
            MergeStepView::RetargetBase { bookmark, .. } => bookmark,
            MergeStepView::Skip { bookmark, .. } => bookmark,
        }
    }
}

impl View for MergeStep {
    type V = MergeStepView;

    open spec fn view(&self) -> MergeStepView {
        match self {
            MergeStep::Merge { bookmark, pr_number, pr_title, method, confidence } => {
                MergeStepView::Merge {
                    bookmark: bookmark@,
                    pr_number: *pr_number,
                    pr_title: pr_title@,
                    method: *method,
                    confidence: confidence@,
                }
            },
            MergeStep::RetargetBase { bookmark, pr_number, old_base, new_base } => {
                MergeStepView::RetargetBase {
                    bookmark: bookmark@,
                    pr_number: *pr_number,
                    old_base: old_base@,
                    new_base: new_base@,
                }
            },
            MergeStep::Skip { bookmark, pr_number, reasons } => {
                MergeStepView::Skip {
                    bookmark: bookmark@,
                    pr_number: *pr_number,
                    reasons: reasons.deep_view(),
                }
            },
        }
    }
}

impl DeepView for MergeStep {
    type V = MergeStepView;

    open spec fn deep_view(&self) -> MergeStepView {
        self@
    }
}

impl Clone for MergeStep {
    fn clone(&self) -> (r: Self)
        ensures
            r@ == self@,
    {
        match self {
            MergeStep::Merge { bookmark, pr_number, pr_title, method, confidence } => {
                MergeStep::Merge {
                    bookmark: bookmark.clone(),
                    pr_number: *pr_number,
                    pr_title: pr_title.clone(),
                    method: *method,
                    confidence: confidence.clone(),
                }
            },
            MergeStep::RetargetBase { bookmark, pr_number, old_base, new_base } => {
                MergeStep::RetargetBase {
                    bookmark: bookmark.clone(),
                    pr_number: *pr_number,
                    old_base: old_base.clone(),
                    new_base: new_base.clone(),
                }
            },
            MergeStep::Skip { bookmark, pr_number, reasons } => {
                MergeStep::Skip {
                    bookmark: bookmark.clone(),
                    pr_number: *pr_number,
                    reasons: clone_strings(reasons),
                }
            },
        }
    }
}

impl MergeStepView {
    /// The step in one line, as it is shown to the user.
    pub open spec fn description(self) -> Seq<char> {
        match self {
            MergeStepView::Merge { pr_number, pr_title, confidence, .. } => (if confidence
                is Certain {
                "merge"@
            } else {
                "merge (uncertain)"@
            }) + " PR #"@ + decimal(pr_number as nat) + ": "@ + pr_title,
            MergeStepView::RetargetBase { pr_number, old_base, new_base, .. } => "retarget PR #"@
                + decimal(pr_number as nat) + ": "@ + old_base + " → "@ + new_base,
            MergeStepView::Skip { bookmark, pr_number, reasons } => "skip PR #"@ + decimal(
                pr_number as nat,
            ) + " ("@ + bookmark + ")"@ + (if reasons.len() > 0 {
                ": "@ + joined(reasons, ", "@)
            } else {
                Seq::empty()
            }),
        }
    }
}

impl MergeStep {
    /// The step in one line, as it is shown to the user.
    pub fn describe(&self) -> (r: String)
        ensures
            r@ == self@.description(),
    {
        let mut out = String::new();
        match self {
            MergeStep::Merge { pr_number, pr_title, confidence, .. } => {
                match confidence {
                    MergeConfidence::Certain => out.append("merge"),
                    MergeConfidence::Uncertain(_) => out.append("merge (uncertain)"),
                }
                out.append(" PR #");
                append_decimal(&mut out, *pr_number);
                out.append(": ");
                out.append(pr_title.as_str());
            },
            MergeStep::RetargetBase { pr_number, old_base, new_base, .. } => {
                out.append("retarget PR #");
                append_decimal(&mut out, *pr_number);
                out.append(": ");
                out.append(old_base.as_str());
                out.append(" → ");
                out.append(new_base.as_str());
            },
            MergeStep::Skip { bookmark, pr_number, reasons } => {
                out.append("skip PR #");
                append_decimal(&mut out, *pr_number);
                out.append(" (");
                out.append(bookmark.as_str());
                out.append(")");
                if reasons.len() > 0 {
                    out.append(": ");
                    append_joined(&mut out, reasons, ", ");
                }
            },
        }
        proof {
            assert(out@ =~= self@.description());
        }
        out
    }

    /// The bookmark name of this step.
    pub fn bookmark_name(&self) -> (r: &str)
        ensures
            r@ == self@.bookmark_name(),
    {
        match self {
            MergeStep::Merge { bookmark, .. } => bookmark.as_str(),
            MergeStep::RetargetBase { bookmark, .. } => bookmark.as_str(),
            MergeStep::Skip { bookmark, .. } => bookmark.as_str(),
        }
    }
}

/// Options for merge planning.
#[derive(Debug)]
pub struct MergePlanOptions {
    /// Merge up to and including this bookmark; without one, merge every
    /// consecutive mergeable PR
    pub target_bookmark: Option<String>,
}

/// What a [`MergePlanOptions`] holds, as plain values.
pub struct MergePlanOptionsView {
    pub target_bookmark: Option<Seq<char>>,
}

impl View for MergePlanOptions {
    type V = MergePlanOptionsView;

    open spec fn view(&self) -> MergePlanOptionsView {
        MergePlanOptionsView { target_bookmark: self.target_bookmark.deep_view() }
    }
}

impl Default for MergePlanOptions {
    fn default() -> (r: Self)
        ensures
            r@.target_bookmark is None,
    {
        MergePlanOptions { target_bookmark: None }
    }
}

/// What is to be merged, in order, and what is left for later.
#[derive(Debug)]
pub struct MergePlan {
    /// Ordered steps to perform (or skip)
    pub steps: Vec<MergeStep>,
    /// Bookmarks to forget after their PRs have been merged
    pub bookmarks_to_clear: Vec<String>,
    /// First bookmark that stays unmerged (the rest of the stack is rebased from it)
    pub rebase_target: Option<String>,
    /// Whether the plan holds any merge, uncertain ones included
    pub has_actionable: bool,
    /// Trunk branch name (e.g., "main")
    pub trunk_branch: String,
}

/// What a [`MergePlan`] holds, as plain values.
pub struct MergePlanView {
    pub steps: Seq<MergeStepView>,
    pub bookmarks_to_clear: Seq<Seq<char>>,
    pub rebase_target: Option<Seq<char>>,
    pub has_actionable: bool,
    pub trunk_branch: Seq<char>,
}

impl View for MergePlan {
    type V = MergePlanView;

    open spec fn view(&self) -> MergePlanView {
        MergePlanView {
            steps: self.steps.deep_view(),
            bookmarks_to_clear: self.bookmarks_to_clear.deep_view(),
            rebase_target: self.rebase_target.deep_view(),
            has_actionable: self.has_actionable,
            trunk_branch: self.trunk_branch@,
        }
    }
}

/// The test for a `Merge` step.
pub open spec fn is_merge_step() -> spec_fn(MergeStepView) -> bool {
    |s: MergeStepView| s is Merge
}

/// The number of `Merge` steps among `steps`.
pub open spec fn count_merges(steps: Seq<MergeStepView>) -> nat {
    steps.filter(is_merge_step()).len()
}

impl MergePlan {
    /// Whether the plan holds no merge; steps of other kinds do not count.
    pub fn is_empty(&self) -> (r: bool)
        ensures
            r == (count_merges(self@.steps) == 0),
    {
        self.merge_count() == 0
    }

    /// The number of PRs that the plan merges.
    pub fn merge_count(&self) -> (r: usize)
        ensures
            r == count_merges(self@.steps),
    {
        let ghost steps = self@.steps;
        let mut count: usize = 0;
        let mut i: usize = 0;
        proof {
            assert(steps.take(0) =~= Seq::<MergeStepView>::empty());
            reveal(Seq::filter);
        }
        while i < self.steps.len()
            invariant
                steps == self.steps.deep_view(),
                i <= self.steps@.len(),
                count <= i,
                count == count_merges(steps.take(i as int)),
            decreases self.steps@.len() - i,
        {
            proof {
                assert(steps.take(i + 1) =~= steps.take(i as int).push(steps[i as int]));
                steps.take(i as int).lemma_filter_push(steps[i as int], is_merge_step());
            }
            match &self.steps[i] {
                MergeStep::Merge { .. } => {
                    count += 1;
                },
                _ => {},
            }
            i += 1;
        }
        proof {
            assert(steps.take(i as int) =~= steps);
        }
        count
    }
}

/// The test for a bookmark with fetched pull-request information.
pub open spec fn has_pr(info: Map<Seq<char>, PrInfoView>) -> spec_fn(Seq<char>) -> bool {
    |name: Seq<char>| info.contains_key(name)
}

/// How many bookmarks from the bottom of the stack a plan may act on: all of
/// them up to and including the first one named `target`, or the whole stack
/// where no target is given or none has that name.
pub open spec fn scope_len(names: Seq<Seq<char>>, target: Option<Seq<char>>) -> nat
    decreases names.len(),
{
    if names.len() == 0 {
        0
    } else if target == Some(names[0]) {
        1
    } else {
        1 + scope_len(names.drop_first(), target)
    }
}

/// How many of the leading candidates can be merged: all those before the
/// first one that is blocked.
pub open spec fn ready_len(candidates: Seq<Seq<char>>, info: Map<Seq<char>, PrInfoView>) -> nat
    decreases candidates.len(),
{
    if candidates.len() == 0 || info[candidates[0]].readiness.is_blocked() {
        0
    } else {
        1 + ready_len(candidates.drop_first(), info)
    }
}

/// The step that merges the PR of `name`: a squash merge, uncertain where the
/// readiness data names an uncertainty.
pub open spec fn merge_step(name: Seq<char>, info: PrInfoView) -> MergeStepView {
    MergeStepView::Merge {
        bookmark: name,
        pr_number: info.details.number,
        pr_title: info.details.title,
        method: MergeMethod::Squash,
        confidence: match info.readiness.uncertainty() {
            Some(reason) => MergeConfidenceView::Uncertain(reason),
            None => MergeConfidenceView::Certain,
        },
    }
}

/// The step that points the PR of `name` at trunk.
pub open spec fn retarget_step(name: Seq<char>, info: PrInfoView, trunk: Seq<char>) -> MergeStepView {
    MergeStepView::RetargetBase {
        bookmark: name,
        pr_number: info.details.number,
        old_base: info.details.base_ref,
        new_base: trunk,
    }
}

/// The step that records why the PR of `name` is not merged.
pub open spec fn skip_step(name: Seq<char>, info: PrInfoView) -> MergeStepView {
    MergeStepView::Skip {
        bookmark: name,
        pr_number: info.details.number,
        reasons: info.readiness.blocking_reasons,
    }
}

/// The retarget step that follows a merge, if the next PR to merge does not
/// sit on trunk already.
pub open spec fn retarget_after(
    rest: Seq<Seq<char>>,
    info: Map<Seq<char>, PrInfoView>,
    trunk: Seq<char>,
) -> Seq<MergeStepView> {
    if rest.len() > 0 && info[rest[0]].details.base_ref != trunk {
        seq![retarget_step(rest[0], info[rest[0]], trunk)]
    } else {
        seq![]
    }
}

/// The steps that merge the PRs of `ready` bottom-up: one merge for each,
/// and between two merges a retarget of the upper PR unless its base is
/// trunk already.
pub open spec fn merge_steps(
    ready: Seq<Seq<char>>,
    info: Map<Seq<char>, PrInfoView>,
    trunk: Seq<char>,
) -> Seq<MergeStepView>
    decreases ready.len(),
{
    if ready.len() == 0 {
        seq![]
    } else {
        seq![merge_step(ready[0], info[ready[0]])] + retarget_after(
            ready.drop_first(),
            info,
            trunk,
        ) + merge_steps(ready.drop_first(), info, trunk)
    }
}

/// The merges of `ready` alone, with no retarget between them.
pub open spec fn plain_merges(ready: Seq<Seq<char>>, info: Map<Seq<char>, PrInfoView>) -> Seq<
    MergeStepView,
> {
    ready.map_values(|name: Seq<char>| merge_step(name, info[name]))
}

/// The skip step for the blocker, if there is one.
pub open spec fn skip_tail(blocker: Option<Seq<char>>, info: Map<Seq<char>, PrInfoView>) -> Seq<
    MergeStepView,
> {
    match blocker {
        Some(b) => seq![skip_step(b, info[b])],
        None => seq![],
    }
}

/// The bookmarks that a plan considers: those in scope that have a PR.
pub open spec fn candidates(
    names: Seq<Seq<char>>,
    info: Map<Seq<char>, PrInfoView>,
    target: Option<Seq<char>>,
) -> Seq<Seq<char>> {
    names.take(scope_len(names, target) as int).filter(has_pr(info))
}

/// The bookmarks whose PRs are merged: the candidates below the first
/// blocked one.
pub open spec fn ready(
    names: Seq<Seq<char>>,
    info: Map<Seq<char>, PrInfoView>,
    target: Option<Seq<char>>,
) -> Seq<Seq<char>> {
    let c = candidates(names, info, target);
    c.take(ready_len(c, info) as int)
}

/// The first blocked candidate, if any.
pub open spec fn blocker(
    names: Seq<Seq<char>>,
    info: Map<Seq<char>, PrInfoView>,
    target: Option<Seq<char>>,
) -> Option<Seq<char>> {
    let c = candidates(names, info, target);
    let k = ready_len(c, info);
    if k < c.len() {
        Some(c[k as int])
    } else {
        None
    }
}

/// The bookmark from which the rest of the stack is rebased after the
/// merges: the blocker, or else the first bookmark above the scope.
pub open spec fn rebase_target(
    names: Seq<Seq<char>>,
    info: Map<Seq<char>, PrInfoView>,
    target: Option<Seq<char>>,
) -> Option<Seq<char>> {
    let above = scope_len(names, target);
    match blocker(names, info, target) {
        Some(b) => Some(b),
        None => if above < names.len() {
            Some(names[above as int])
        } else {
            None
        },
    }
}

/// The merge plan for a stack.
///
/// `names` are the stack's bookmarks from trunk to leaf, `info` what was
/// fetched for those that have a PR. The candidates are the bookmarks in
/// scope (see [`scope_len`]) that have a PR. Those below the first blocked
/// candidate are merged, in stack order; the blocked one is skipped and
/// nothing above it is touched.
pub open spec fn merge_plan(
    names: Seq<Seq<char>>,
    info: Map<Seq<char>, PrInfoView>,
    target: Option<Seq<char>>,
    trunk: Seq<char>,
) -> MergePlanView {
    let ready = ready(names, info, target);
    MergePlanView {
        steps: merge_steps(ready, info, trunk) + skip_tail(blocker(names, info, target), info),
        bookmarks_to_clear: ready,
        rebase_target: rebase_target(names, info, target),
        has_actionable: ready.len() > 0,
        trunk_branch: trunk,
    }
}

/// Where the first `k` candidates are free to merge and the next one, if
/// there is one, is blocked, exactly `k` are ready.
pub proof fn lemma_ready_len(candidates: Seq<Seq<char>>, info: Map<Seq<char>, PrInfoView>, k: int)
    requires
        0 <= k <= candidates.len(),
        forall|j: int| 0 <= j < k ==> !info[#[trigger] candidates[j]].readiness.is_blocked(),
        k < candidates.len() ==> info[candidates[k]].readiness.is_blocked(),
    ensures
        ready_len(candidates, info) == k,
    decreases candidates.len(),
{
    if candidates.len() == 0 || k == 0 {
    } else {
        let rest = candidates.drop_first();
        assert(!info[candidates[0]].readiness.is_blocked());
        assert forall|j: int| 0 <= j < k - 1 implies !info[#[trigger] rest[j]].readiness.is_blocked() by {
            assert(rest[j] == candidates[j + 1]);
        }
        lemma_ready_len(rest, info, k - 1);
    }
}

/// What the first pass over the stack collects.
struct FirstPass {
    steps: Vec<MergeStep>,
    bookmarks_to_clear: Vec<String>,
    rebase_target: Option<String>,
    mergeable_indices: Vec<usize>,
}

/// The merge step for one bookmark.
fn build_merge_step(name: &String, info: &PrInfo) -> (r: MergeStep)
    ensures
        r@ == merge_step(name@, info@),
{
    let confidence = match info.readiness.uncertainty() {
        Some(reason) => MergeConfidence::Uncertain(reason.to_owned()),
        None => MergeConfidence::Certain,
    };
    MergeStep::Merge {
        bookmark: name.clone(),
        pr_number: info.details.number,
        pr_title: info.details.title.clone(),
        method: MergeMethod::Squash,
        confidence,
    }
}

/// First pass: walks the stack from trunk to leaf and collects the merges,
/// the skip of the first blocked PR, and the rebase target.
fn first_pass(analysis: &SubmissionAnalysis, pr_info: &PrInfoMap, options: &MergePlanOptions) -> (r:
    FirstPass)
    ensures
        ({
            let names = bookmark_names(analysis@.segments);
            let info = pr_info_views(pr_info@);
            let target = options@.target_bookmark;
            let ready = ready(names, info, target);
            &&& r.steps.deep_view() == plain_merges(ready, info) + skip_tail(
                blocker(names, info, target),
                info,
            )
            &&& r.bookmarks_to_clear.deep_view() == ready
            &&& r.rebase_target.deep_view() == rebase_target(names, info, target)
            &&& r.mergeable_indices@.len() == ready.len()
            &&& forall|j: int|
                0 <= j < ready.len() ==> (#[trigger] r.mergeable_indices@[j]) < names.len()
                    && names[r.mergeable_indices@[j] as int] == ready[j]
            &&& forall|j: int| 0 <= j < ready.len() ==> info.contains_key(#[trigger] ready[j])
        }),
{
    let ghost names = bookmark_names(analysis@.segments);
    let ghost info = pr_info_views(pr_info@);
    let ghost target = options@.target_bookmark;

    let mut steps: Vec<MergeStep> = Vec::new();
    let mut bookmarks_to_clear: Vec<String> = Vec::new();
    let mut rebase: Option<String> = None;
    let mut mergeable_indices: Vec<usize> = Vec::new();
    let mut hit_blocker = false;
    let mut hit_target = false;

    // `scoped` counts the bookmarks in scope among those walked so far,
    // `cands` are the candidates among them.
    let ghost mut scoped: int = 0;
    let ghost mut cands: Seq<Seq<char>> = Seq::empty();

    let n = analysis.segments.len();
    let mut i: usize = 0;
    proof {
        assert(names.skip(0) =~= names);
        assert(names.take(0) =~= Seq::<Seq<char>>::empty());
        reveal(Seq::filter);
        assert(steps.deep_view() =~= plain_merges(cands.take(0), info) + skip_tail(None, info));
        assert(bookmarks_to_clear.deep_view() =~= cands.take(0));
    }
    while i < n
        invariant
            n == analysis.segments@.len(),
            names == bookmark_names(analysis@.segments),
            names.len() == n,
            info == pr_info_views(pr_info@),
            target == options@.target_bookmark,
            i <= n,
            0 <= scoped <= i,
            hit_target ==> target is Some && scoped == scope_len(names, target),
            !hit_target ==> scoped == i && scope_len(names, target) == i + scope_len(
                names.skip(i as int),
                target,
            ),
            cands == names.take(scoped).filter(has_pr(info)),
            forall|j: int| 0 <= j < cands.len() ==> info.contains_key(#[trigger] cands[j]),
            bookmarks_to_clear@.len() <= cands.len(),
            bookmarks_to_clear.deep_view() == cands.take(bookmarks_to_clear@.len() as int),
            forall|j: int|
                0 <= j < bookmarks_to_clear@.len() ==> !info[#[trigger] cands[j]].readiness.is_blocked(),
            hit_blocker ==> bookmarks_to_clear@.len() < cands.len()
                && info[cands[bookmarks_to_clear@.len() as int]].readiness.is_blocked(),
            !hit_blocker ==> bookmarks_to_clear@.len() == cands.len(),
            steps.deep_view() == plain_merges(cands.take(bookmarks_to_clear@.len() as int), info)
                + skip_tail(
                if hit_blocker {
                    Some(cands[bookmarks_to_clear@.len() as int])
                } else {
                    None
                },
                info,
            ),
            mergeable_indices@.len() == bookmarks_to_clear@.len(),
            forall|j: int|
                0 <= j < mergeable_indices@.len() ==> (#[trigger] mergeable_indices@[j]) < i
                    && names[mergeable_indices@[j] as int] == cands[j],
            rebase.deep_view() == (if hit_blocker {
                Some(cands[bookmarks_to_clear@.len() as int])
            } else if scoped < i {
                Some(names[scoped])
            } else {
                None
            }),
        decreases n - i,
    {
        let name: &String = &analysis.segments[i].bookmark.name;
        proof {
            lemma_deep_view_index(analysis.segments, i as int);
            assert(names[i as int] == name@);
        }
        let mut past_target = false;
        match &options.target_bookmark {
            Some(wanted) => {
                if hit_target {
                    past_target = true;
                } else {
                    proof {
                        assert(names.skip(i as int)[0] == names[i as int]);
                        assert(names.skip(i as int).drop_first() =~= names.skip(i + 1));
                    }
                    if *name == *wanted {
                        hit_target = true;
                        proof {
                            assert(target == Some(names[i as int]));
                            assert(scope_len(names.skip(i as int), target) == 1);
                        }
                    } else {
                        proof {
                            assert(target != Some(names[i as int]));
                            assert(scope_len(names.skip(i as int), target) == 1 + scope_len(
                                names.skip(i + 1),
                                target,
                            ));
                        }
                    }
                }
            },
            None => {
                proof {
                    assert(names.skip(i as int)[0] == names[i as int]);
                    assert(names.skip(i as int).drop_first() =~= names.skip(i + 1));
                    assert(scope_len(names.skip(i as int), target) == 1 + scope_len(
                        names.skip(i + 1),
                        target,
                    ));
                }
            },
        }
        if past_target {
            if rebase.is_none() {
                rebase = Some(name.clone());
            }
        } else {
            proof {
                assert(scoped == i);
                assert(names.take(scoped + 1) =~= names.take(scoped).push(names[i as int]));
                names.take(scoped).lemma_filter_push(names[i as int], has_pr(info));
            }
            let ghost old_cands = cands;
            match pr_info.get(name.as_str()) {
                None => {},
                Some(found) => {
                    proof {
                        cands = cands.push(name@);
                        assert(info[name@] == found@);
                    }
                    if hit_blocker {
                        // The blocker is the rebase target already.
                    } else if found.readiness.is_blocked() {
                        let skip = MergeStep::Skip {
                            bookmark: name.clone(),
                            pr_number: found.details.number,
                            reasons: clone_strings(&found.readiness.blocking_reasons),
                        };
                        let ghost before = steps;
                        steps.push(skip);
                        hit_blocker = true;
                        if rebase.is_none() {
                            rebase = Some(name.clone());
                        }
                        proof {
                            lemma_deep_view_push(before, steps, skip);
                            let m = bookmarks_to_clear@.len() as int;
                            assert(cands.take(m) =~= old_cands.take(m));
                            assert(cands[m] == name@);
                            assert(steps.deep_view() =~= plain_merges(cands.take(m), info)
                                + skip_tail(Some(cands[m]), info));
                        }
                    } else {
                        let merge = build_merge_step(name, found);
                        let ghost before = steps;
                        let ghost before_clear = bookmarks_to_clear;
                        let cleared = name.clone();
                        mergeable_indices.push(i);
                        steps.push(merge);
                        bookmarks_to_clear.push(cleared);
                        proof {
                            lemma_deep_view_push(before, steps, merge);
                            lemma_deep_view_push(before_clear, bookmarks_to_clear, cleared);
                            let m = before_clear@.len() as int;
                            assert(old_cands.take(m) =~= old_cands);
                            assert(cands.take(m + 1) =~= cands);
                            assert(bookmarks_to_clear.deep_view() =~= cands.take(m + 1));
                            assert(steps.deep_view() =~= plain_merges(cands.take(m + 1), info)
                                + skip_tail(None, info));
                        }
                    }
                },
            }
            proof {
                let m = bookmarks_to_clear@.len() as int;
                if hit_blocker {
                    assert(cands.take(m) =~= old_cands.take(m));
                }
                scoped = scoped + 1;
            }
        }
        i += 1;
    }
    proof {
        assert(names.skip(n as int) =~= Seq::<Seq<char>>::empty());
        assert(scoped == scope_len(names, target));
        assert(cands == candidates(names, info, target));
        lemma_ready_len(cands, info, bookmarks_to_clear@.len() as int);
    }
    FirstPass { steps, bookmarks_to_clear, rebase_target: rebase, mergeable_indices }
}

/// Second pass: after each merge but the last, a retarget of the next PR to
/// merge is put in unless that PR sits on trunk already. Steps of other
/// kinds stay where they are.
fn insert_retargets(
    steps: &Vec<MergeStep>,
    mergeable_indices: &Vec<usize>,
    analysis: &SubmissionAnalysis,
    pr_info: &PrInfoMap,
    options: &MergePlanOptions,
    trunk_branch: &str,
) -> (r: Vec<MergeStep>)
    requires
        ({
            let names = bookmark_names(analysis@.segments);
            let info = pr_info_views(pr_info@);
            let target = options@.target_bookmark;
            let ready = ready(names, info, target);
            &&& steps.deep_view() == plain_merges(ready, info) + skip_tail(
                blocker(names, info, target),
                info,
            )
            &&& mergeable_indices@.len() == ready.len()
            &&& forall|j: int|
                0 <= j < ready.len() ==> (#[trigger] mergeable_indices@[j]) < names.len()
                    && names[mergeable_indices@[j] as int] == ready[j]
            &&& forall|j: int| 0 <= j < ready.len() ==> info.contains_key(#[trigger] ready[j])
        }),
    ensures
        ({
            let names = bookmark_names(analysis@.segments);
            let info = pr_info_views(pr_info@);
            let target = options@.target_bookmark;
            r.deep_view() == merge_steps(ready(names, info, target), info, trunk_branch@)
                + skip_tail(blocker(names, info, target), info)
        }),
{
    let ghost names = bookmark_names(analysis@.segments);
    let ghost info = pr_info_views(pr_info@);
    let ghost ready = ready(names, info, options@.target_bookmark);
    let ghost tail = skip_tail(blocker(names, info, options@.target_bookmark), info);
    let ghost trunk = trunk_branch@;
    let ghost k = ready.len() as int;

    let mut final_steps: Vec<MergeStep> = Vec::new();
    let mut merge_step_count: usize = 0;
    let mut p: usize = 0;
    proof {
        assert(ready.skip(0) =~= ready);
        assert(steps.deep_view().len() == steps@.len());
        assert(plain_merges(ready, info).len() == k);
        assert(final_steps.deep_view() + merge_steps(ready, info, trunk) =~= merge_steps(
            ready,
            info,
            trunk,
        ));
    }
    while p < steps.len()
        invariant
            names == bookmark_names(analysis@.segments),
            names.len() == analysis.segments@.len(),
            info == pr_info_views(pr_info@),
            trunk == trunk_branch@,
            k == ready.len(),
            tail.len() <= 1,
            forall|j: int| 0 <= j < tail.len() ==> !(#[trigger] tail[j] is Merge),
            steps.deep_view() == plain_merges(ready, info) + tail,
            mergeable_indices@.len() == k,
            forall|j: int|
                0 <= j < k ==> (#[trigger] mergeable_indices@[j]) < names.len()
                    && names[mergeable_indices@[j] as int] == ready[j],
            forall|j: int| 0 <= j < k ==> info.contains_key(#[trigger] ready[j]),
            p <= steps@.len(),
            steps@.len() == k + tail.len(),
            merge_step_count == (if p <= k {
                p as int
            } else {
                k
            }),
            p <= k ==> final_steps.deep_view() + merge_steps(ready.skip(p as int), info, trunk)
                == merge_steps(ready, info, trunk),
            p > k ==> final_steps.deep_view() == merge_steps(ready, info, trunk) + tail.take(p - k),
        decreases steps@.len() - p,
    {
        let step = steps[p].clone();
        let ghost before = final_steps;
        proof {
            lemma_deep_view_index(*steps, p as int);
            if p < k {
                assert(step@ == merge_step(ready[p as int], info[ready[p as int]]));
                assert(ready.skip(p as int)[0] == ready[p as int]);
                assert(ready.skip(p as int).drop_first() =~= ready.skip(p + 1));
            } else {
                assert(step@ == tail[p - k]);
                assert(ready.skip(k) =~= Seq::<Seq<char>>::empty());
            }
        }
        match &step {
            MergeStep::Merge { .. } => {
                final_steps.push(step);
                merge_step_count += 1;
                proof {
                    lemma_deep_view_push(before, final_steps, step);
                }
                let ghost pushed = final_steps;

                // Look ahead: the next PR to merge may need a new base.
                if merge_step_count < mergeable_indices.len() {
                    let next_idx = mergeable_indices[merge_step_count];
                    let next_bookmark: &String = &analysis.segments[next_idx].bookmark.name;
                    proof {
                        lemma_deep_view_index(analysis.segments, next_idx as int);
                        assert(next_bookmark@ == ready[p + 1]);
                        assert(ready.skip(p + 1)[0] == ready[p + 1]);
                    }
                    match pr_info.get(next_bookmark.as_str()) {
                        Some(next_info) => {
                            proof {
                                assert(info[next_bookmark@] == next_info@);
                            }
                            if !str_eq(next_info.details.base_ref.as_str(), trunk_branch) {
                                let retarget = MergeStep::RetargetBase {
                                    bookmark: next_bookmark.clone(),
                                    pr_number: next_info.details.number,
                                    old_base: next_info.details.base_ref.clone(),
                                    new_base: trunk_branch.to_owned(),
                                };
                                final_steps.push(retarget);
                                proof {
                                    lemma_deep_view_push(pushed, final_steps, retarget);
                                }
                            }
                        },
                        None => {
                            proof {
                                assert(info.contains_key(ready[p + 1]));
                            }
                        },
                    }
                }
                proof {
                    assert(final_steps.deep_view() =~= before.deep_view() + seq![step@]
                        + retarget_after(ready.skip(p + 1), info, trunk));
                    assert(final_steps.deep_view() + merge_steps(ready.skip(p + 1), info, trunk)
                        =~= before.deep_view() + merge_steps(ready.skip(p as int), info, trunk));
                }
            },
            _ => {
                final_steps.push(step);
                proof {
                    lemma_deep_view_push(before, final_steps, step);
                    assert(before.deep_view() =~= merge_steps(ready, info, trunk) + tail.take(
                        p - k,
                    ));
                    assert(final_steps.deep_view() =~= merge_steps(ready, info, trunk) + tail.take(
                        p + 1 - k,
                    ));
                }
            },
        }
        p += 1;
    }
    proof {
        if p <= k {
            assert(ready.skip(k) =~= Seq::<Seq<char>>::empty());
            assert(tail =~= Seq::<MergeStepView>::empty());
            assert(final_steps.deep_view() =~= merge_steps(ready, info, trunk) + tail);
        } else {
            assert(tail.take(p - k) =~= tail);
        }
    }
    final_steps
}

/// Merging `ready` takes one merge step for each of its bookmarks, whatever
/// is retargeted in between and whether or not a skip follows.
pub proof fn lemma_count_merges(
    ready: Seq<Seq<char>>,
    info: Map<Seq<char>, PrInfoView>,
    trunk: Seq<char>,
    blocker: Option<Seq<char>>,
)
    ensures
        count_merges(merge_steps(ready, info, trunk)) == ready.len(),
        count_merges(merge_steps(ready, info, trunk) + skip_tail(blocker, info)) == ready.len(),
    decreases ready.len(),
{
    broadcast use Seq::filter_distributes_over_add;

    let steps = merge_steps(ready, info, trunk);
    let tail = skip_tail(blocker, info);
    assert(count_merges(tail) == 0) by {
        reveal_with_fuel(Seq::filter, 2);
        if blocker is Some {
            assert(tail.drop_last() =~= Seq::<MergeStepView>::empty());
        }
    }
    if ready.len() == 0 {
        reveal_with_fuel(Seq::filter, 1);
    } else {
        let rest = ready.drop_first();
        let head = seq![merge_step(ready[0], info[ready[0]])];
        let retarget = retarget_after(rest, info, trunk);
        lemma_count_merges(rest, info, trunk, blocker);
        assert(head.filter(is_merge_step()) =~= head) by {
            reveal_with_fuel(Seq::filter, 2);
            assert(head.drop_last() =~= Seq::<MergeStepView>::empty());
        }
        assert(retarget.filter(is_merge_step()).len() == 0) by {
            reveal_with_fuel(Seq::filter, 2);
            if retarget.len() > 0 {
                assert(retarget.drop_last() =~= Seq::<MergeStepView>::empty());
            }
        }
        assert(steps == head + retarget + merge_steps(rest, info, trunk));
    }
}

/// Whether any of the steps is a merge.
fn has_merge(steps: &Vec<MergeStep>) -> (r: bool)
    ensures
        r == (count_merges(steps.deep_view()) > 0),
{
    let ghost all = steps.deep_view();
    let mut i: usize = 0;
    proof {
        assert(all.take(0) =~= Seq::<MergeStepView>::empty());
        reveal(Seq::filter);
    }
    while i < steps.len()
        invariant
            all == steps.deep_view(),
            i <= steps@.len(),
            count_merges(all.take(i as int)) == 0,
        decreases steps@.len() - i,
    {
        proof {
            assert(all.take(i + 1) =~= all.take(i as int).push(all[i as int]));
            all.take(i as int).lemma_filter_push(all[i as int], is_merge_step());
            assert(all.take(i + 1) + all.skip(i + 1) =~= all);
            Seq::filter_distributes_over_add(all.take(i + 1), all.skip(i + 1), is_merge_step());
        }
        match &steps[i] {
            MergeStep::Merge { .. } => {
                return true;
            },
            _ => {},
        }
        i += 1;
    }
    proof {
        assert(all.take(i as int) =~= all);
    }
    false
}

/// Plans the merge of a stack.
///
/// `analysis` holds the stack from trunk to leaf, `pr_info` what was fetched
/// for the bookmarks that have a PR, and `trunk_branch` the name of the trunk.
/// A bookmark without an entry in `pr_info` is passed over. The PRs below the
/// first blocked one are merged bottom-up; the blocked one is skipped and
/// becomes the rebase target. With a target bookmark in `options`, nothing
/// above that bookmark is merged. Between two merges the upper PR is pointed
/// at trunk unless it sits there already. Nothing is fetched or changed here.
pub fn create_merge_plan(
    analysis: &SubmissionAnalysis,
    pr_info: &PrInfoMap,
    options: &MergePlanOptions,
    trunk_branch: &str,
) -> (plan: MergePlan)
    ensures
        plan@ == merge_plan(
            bookmark_names(analysis@.segments),
            pr_info_views(pr_info@),
            options@.target_bookmark,
            trunk_branch@,
        ),
        plan.has_actionable == (count_merges(plan@.steps) > 0),
{
    let first = first_pass(analysis, pr_info, options);
    let final_steps = insert_retargets(
        &first.steps,
        &first.mergeable_indices,
        analysis,
        pr_info,
        options,
        trunk_branch,
    );
    let has_actionable = has_merge(&final_steps);
    proof {
        let names = bookmark_names(analysis@.segments);
        let info = pr_info_views(pr_info@);
        let target = options@.target_bookmark;
        lemma_count_merges(
            ready(names, info, target),
            info,
            trunk_branch@,
            blocker(names, info, target),
        );
    }
    MergePlan {
        steps: final_steps,
        bookmarks_to_clear: first.bookmarks_to_clear,
        rebase_target: first.rebase_target,
        has_actionable,
        trunk_branch: trunk_branch.to_owned(),
    }
}

/// Without a target every bookmark of the stack is in scope.
pub proof fn lemma_scope_whole_stack(names: Seq<Seq<char>>)
    ensures
        scope_len(names, None) == names.len(),
    decreases names.len(),
{
    if names.len() > 0 {
        lemma_scope_whole_stack(names.drop_first());
    }
}

/// Where every bookmark of the stack has a PR, all of them are candidates.
pub proof fn lemma_all_candidates(names: Seq<Seq<char>>, info: Map<Seq<char>, PrInfoView>)
    requires
        forall|j: int| 0 <= j < names.len() ==> info.contains_key(#[trigger] names[j]),
    ensures
        candidates(names, info, None) == names,
{
    lemma_scope_whole_stack(names);
    assert(names.take(names.len() as int) =~= names);
    assert forall|j: int| 0 <= j < names.len() implies has_pr(info)(#[trigger] names[j]) by {}
    lemma_filter_keeps_all(names, has_pr(info));
}

/// A stack of three whose PRs are all free to merge, the first on trunk and
/// each of the others on a base that is not trunk, takes five steps: merge,
/// retarget to trunk, merge, retarget to trunk, merge. All three bookmarks
/// are cleared, in stack order, and nothing is left to rebase.
pub proof fn lemma_three_mergeable(
    names: Seq<Seq<char>>,
    info: Map<Seq<char>, PrInfoView>,
    trunk: Seq<char>,
)
    requires
        names.len() == 3,
        forall|j: int| 0 <= j < 3 ==> info.contains_key(#[trigger] names[j]),
        forall|j: int| 0 <= j < 3 ==> !info[#[trigger] names[j]].readiness.is_blocked(),
        info[names[1]].details.base_ref != trunk,
        info[names[2]].details.base_ref != trunk,
    ensures
        merge_plan(names, info, None, trunk).steps == seq![
            merge_step(names[0], info[names[0]]),
            retarget_step(names[1], info[names[1]], trunk),
            merge_step(names[1], info[names[1]]),
            retarget_step(names[2], info[names[2]], trunk),
            merge_step(names[2], info[names[2]]),
        ],
        merge_plan(names, info, None, trunk).bookmarks_to_clear == names,
        merge_plan(names, info, None, trunk).rebase_target is None,
        merge_plan(names, info, None, trunk).has_actionable,
{
    lemma_all_candidates(names, info);
    lemma_scope_whole_stack(names);
    lemma_ready_len(names, info, 3);
    assert(names.take(3) =~= names);
    let r1 = names.drop_first();
    let r2 = r1.drop_first();
    let r3 = r2.drop_first();
    assert(r1[0] == names[1] && r2[0] == names[2] && r1.len() == 2 && r2.len() == 1 && r3.len()
        == 0);
    assert(merge_steps(r3, info, trunk) =~= seq![]);
    assert(merge_steps(r2, info, trunk) =~= seq![merge_step(names[2], info[names[2]])]);
    assert(merge_steps(r1, info, trunk) =~= seq![
        merge_step(names[1], info[names[1]]),
        retarget_step(names[2], info[names[2]], trunk),
        merge_step(names[2], info[names[2]]),
    ]);
    assert(merge_plan(names, info, None, trunk).steps =~= seq![
        merge_step(names[0], info[names[0]]),
        retarget_step(names[1], info[names[1]], trunk),
        merge_step(names[1], info[names[1]]),
        retarget_step(names[2], info[names[2]], trunk),
        merge_step(names[2], info[names[2]]),
    ]);
}

/// Where the middle PR of a stack of three is blocked and the bottom one is
/// not, the plan merges the bottom PR and skips the middle one. The top
/// bookmark gets no step, whatever its state, and the middle bookmark is the
/// rebase target.
pub proof fn lemma_middle_blocked(
    names: Seq<Seq<char>>,
    info: Map<Seq<char>, PrInfoView>,
    trunk: Seq<char>,
)
    requires
        names.len() == 3,
        forall|j: int| 0 <= j < 3 ==> info.contains_key(#[trigger] names[j]),
        !info[names[0]].readiness.is_blocked(),
        info[names[1]].readiness.is_blocked(),
    ensures
        merge_plan(names, info, None, trunk).steps == seq![
            merge_step(names[0], info[names[0]]),
            skip_step(names[1], info[names[1]]),
        ],
        merge_plan(names, info, None, trunk).bookmarks_to_clear == seq![names[0]],
        merge_plan(names, info, None, trunk).rebase_target == Some(names[1]),
{
    lemma_all_candidates(names, info);
    lemma_ready_len(names, info, 1);
    let ready = names.take(1);
    assert(ready =~= seq![names[0]]);
    assert(merge_steps(ready.drop_first(), info, trunk) =~= seq![]);
    assert(merge_steps(ready, info, trunk) =~= seq![merge_step(names[0], info[names[0]])]);
    assert(merge_plan(names, info, None, trunk).steps =~= seq![
        merge_step(names[0], info[names[0]]),
        skip_step(names[1], info[names[1]]),
    ]);
}

/// Merges never pass over a blocked PR: every bookmark that the plan
/// merges has a PR that is free to merge, the bookmarks that it merges are
/// the first candidates in stack order, and the blocker, where there is
/// one, is the candidate right above them and is blocked.
pub proof fn lemma_ready_are_free(
    names: Seq<Seq<char>>,
    info: Map<Seq<char>, PrInfoView>,
    target: Option<Seq<char>>,
)
    ensures
        ready(names, info, target).is_prefix_of(candidates(names, info, target)),
        forall|j: int|
            0 <= j < ready(names, info, target).len() ==> info.contains_key(
                #[trigger] ready(names, info, target)[j],
            ) && !info[ready(names, info, target)[j]].readiness.is_blocked(),
        blocker(names, info, target) matches Some(b) ==> info.contains_key(b)
            && info[b].readiness.is_blocked() && b == candidates(names, info, target)[ready(
            names,
            info,
            target,
        ).len() as int],
        blocker(names, info, target) is None ==> ready(names, info, target) == candidates(
            names,
            info,
            target,
        ),
{
    let c = candidates(names, info, target);
    let scope = names.take(scope_len(names, target) as int);
    lemma_ready_len_bounds(c, info);
    assert forall|j: int| 0 <= j < c.len() implies info.contains_key(#[trigger] c[j]) by {
        scope.lemma_filter_pred(has_pr(info), j);
    }
    let k = ready_len(c, info);
    assert(c.take(k as int) =~= c.subrange(0, k as int));
    if k == c.len() {
        assert(c.take(k as int) =~= c);
    }
}

/// The candidates that are ready are free to merge, and the one above
/// them, if there is one, is blocked.
pub proof fn lemma_ready_len_bounds(candidates: Seq<Seq<char>>, info: Map<Seq<char>, PrInfoView>)
    ensures
        ready_len(candidates, info) <= candidates.len(),
        forall|j: int|
            0 <= j < ready_len(candidates, info) ==> !info[#[trigger] candidates[j]].readiness.is_blocked(),
        ready_len(candidates, info) < candidates.len() ==> info[candidates[ready_len(
            candidates,
            info,
        ) as int]].readiness.is_blocked(),
    decreases candidates.len(),
{
    if candidates.len() > 0 && !info[candidates[0]].readiness.is_blocked() {
        let rest = candidates.drop_first();
        lemma_ready_len_bounds(rest, info);
        assert forall|j: int| 0 <= j < ready_len(candidates, info) implies !info[#[trigger] candidates[j]].readiness.is_blocked() by {
            if j > 0 {
                assert(candidates[j] == rest[j - 1]);
            }
        }
        if ready_len(candidates, info) < candidates.len() {
            assert(candidates[ready_len(candidates, info) as int] == rest[ready_len(rest, info) as int]);
        }
    }
}

} // verus!
