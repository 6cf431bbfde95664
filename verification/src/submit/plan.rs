//! Submission planning: which bookmarks to push, which PRs to create, and
//! which PRs to give another base.

use vstd::prelude::*;
use vstd::hash_map::StringHashMap;
use vstd::string::StringExecFns;
use crate::error::Error;
use crate::platform::PlatformService;
use crate::submit::analysis::SubmissionAnalysis;
use crate::submit::analysis::bookmark_names;
use crate::submit::analysis::segment_title;
use crate::submit::analysis::title_of_segment;
use crate::text::append_decimal;
use crate::text::decimal;
use crate::text::lemma_deep_view_index;
use crate::text::lemma_deep_view_push;
use crate::text::lemma_filter_keeps_all;
use crate::text::lemma_filter_keeps_none;
use crate::text::str_eq;
use crate::types::Bookmark;
use crate::types::BookmarkView;
use crate::types::NarrowedBookmarkSegment;
use crate::types::NarrowedBookmarkSegmentView;
use crate::types::PullRequest;
use crate::types::PullRequestMap;
use crate::types::PullRequestView;
use crate::types::pull_request_views;

verus! {

/// A PR that is to be created.
#[derive(Debug)]
pub struct PrToCreate {
    /// The bookmark that becomes the PR's head
    pub bookmark: Bookmark,
    /// The branch that the PR is opened against
    pub base_branch: String,
    /// The PR's title
    pub title: String,
    /// Whether the PR is opened as a draft
    pub draft: bool,
}

/// What a [`PrToCreate`] holds, as plain values.
pub struct PrToCreateView {
    pub bookmark: BookmarkView,
    pub base_branch: Seq<char>,
    pub title: Seq<char>,
    pub draft: bool,
}

impl View for PrToCreate {
    type V = PrToCreateView;

    open spec fn view(&self) -> PrToCreateView {
        PrToCreateView {
            bookmark: self.bookmark@,
            base_branch: self.base_branch@,
            title: self.title@,
            draft: self.draft,
        }
    }
}

impl Clone for PrToCreate {
    fn clone(&self) -> (r: Self)
        ensures
            r@ == self@,
    {
        PrToCreate {
            bookmark: self.bookmark.clone(),
            base_branch: self.base_branch.clone(),
            title: self.title.clone(),
            draft: self.draft,
        }
    }
}

/// A PR whose base is to be changed.
#[derive(Debug)]
pub struct PrBaseUpdate {
    /// The bookmark that is the PR's head
    pub bookmark: Bookmark,
    /// The base that the PR has now
    pub current_base: String,
    /// The base that the PR is to have
    pub expected_base: String,
    /// The PR as it was found
    pub pr: PullRequest,
}

/// What a [`PrBaseUpdate`] holds, as plain values.
pub struct PrBaseUpdateView {
    pub bookmark: BookmarkView,
    pub current_base: Seq<char>,
    pub expected_base: Seq<char>,
    pub pr: PullRequestView,
}

impl View for PrBaseUpdate {
    type V = PrBaseUpdateView;

    open spec fn view(&self) -> PrBaseUpdateView {
        PrBaseUpdateView {
            bookmark: self.bookmark@,
            current_base: self.current_base@,
            expected_base: self.expected_base@,
            pr: self.pr@,
        }
    }
}

impl Clone for PrBaseUpdate {
    fn clone(&self) -> (r: Self)
        ensures
            r@ == self@,
    {
        PrBaseUpdate {
            bookmark: self.bookmark.clone(),
            current_base: self.current_base.clone(),
            expected_base: self.expected_base.clone(),
            pr: self.pr.clone(),
        }
    }
}

/// One step of a submission.
#[derive(Debug)]
pub enum ExecutionStep {
    /// Push the bookmark to the remote
    Push(Bookmark),
    /// Give an existing PR another base
    UpdateBase(PrBaseUpdate),
    /// Create a PR
    CreatePr(PrToCreate),
}

/// What an [`ExecutionStep`] holds, as plain values.
pub enum ExecutionStepView {
    Push(BookmarkView),
    UpdateBase(PrBaseUpdateView),
    CreatePr(PrToCreateView),
}

impl ExecutionStepView {
    /// The name of the bookmark that the step is about.
    pub open spec fn bookmark_name(self) -> Seq<char> {
        match self {
            ExecutionStepView::Push(bookmark) => bookmark.name,
            ExecutionStepView::UpdateBase(update) => update.bookmark.name,
            ExecutionStepView::CreatePr(create) => create.bookmark.name,
        }
    }
}

impl View for ExecutionStep {
    type V = ExecutionStepView;

    open spec fn view(&self) -> ExecutionStepView {
        match self {
            ExecutionStep::Push(bookmark) => ExecutionStepView::Push(bookmark@),
            ExecutionStep::UpdateBase(update) => ExecutionStepView::UpdateBase(update@),
            ExecutionStep::CreatePr(create) => ExecutionStepView::CreatePr(create@),
        }
    }
}

impl DeepView for ExecutionStep {
    type V = ExecutionStepView;

    open spec fn deep_view(&self) -> ExecutionStepView {
        self@
    }
}

impl Clone for ExecutionStep {
    fn clone(&self) -> (r: Self)
        ensures
            r@ == self@,
    {
        match self {
            ExecutionStep::Push(bookmark) => ExecutionStep::Push(bookmark.clone()),
            ExecutionStep::UpdateBase(update) => ExecutionStep::UpdateBase(update.clone()),
            ExecutionStep::CreatePr(create) => ExecutionStep::CreatePr(create.clone()),
        }
    }
}

impl ExecutionStepView {
    /// The step in one line, as it is shown to the user.
    pub open spec fn description(self) -> Seq<char> {
        match self {
            ExecutionStepView::Push(bookmark) => "push "@ + bookmark.name,
            ExecutionStepView::UpdateBase(update) => "update "@ + update.bookmark.name + " (PR #"@
                + decimal(update.pr.number as nat) + ") "@ + update.current_base + " → "@
                + update.expected_base,
            ExecutionStepView::CreatePr(create) => "create PR "@ + create.bookmark.name + " → "@
                + create.base_branch + " ("@ + create.title + ")"@,
        }
    }
}

impl ExecutionStep {
    /// The step in one line, as it is shown to the user.
    pub fn describe(&self) -> (r: String)
        ensures
            r@ == self@.description(),
    {
        let mut out = String::new();
        match self {
            ExecutionStep::Push(bookmark) => {
                out.append("push ");
                out.append(bookmark.name.as_str());
            },
            ExecutionStep::UpdateBase(update) => {
                out.append("update ");
                out.append(update.bookmark.name.as_str());
                out.append(" (PR #");
                append_decimal(&mut out, update.pr.number);
                out.append(") ");
                out.append(update.current_base.as_str());
                out.append(" → ");
                out.append(update.expected_base.as_str());
            },
            ExecutionStep::CreatePr(create) => {
                out.append("create PR ");
                out.append(create.bookmark.name.as_str());
                out.append(" → ");
                out.append(create.base_branch.as_str());
                out.append(" (");
                out.append(create.title.as_str());
                out.append(")");
            },
        }
        proof {
            assert(out@ =~= self@.description());
        }
        out
    }

    /// The name of the bookmark that the step is about.
    pub fn bookmark_name(&self) -> (r: &str)
        ensures
            r@ == self@.bookmark_name(),
    {
        match self {
            ExecutionStep::Push(bookmark) => bookmark.name.as_str(),
            ExecutionStep::UpdateBase(update) => update.bookmark.name.as_str(),
            ExecutionStep::CreatePr(create) => create.bookmark.name.as_str(),
        }
    }
}

/// An order that the steps of a plan keep: the bookmark is pushed before
/// anything is done to its PR.
#[derive(Debug, PartialEq, Eq)]
pub enum ExecutionConstraint {
    /// The bookmark is on the remote before a PR is opened for it
    PushBeforeCreate(String),
    /// The bookmark is on the remote before its PR is given another base
    PushBeforeUpdate(String),
}

/// What an [`ExecutionConstraint`] holds, as plain values.
pub enum ExecutionConstraintView {
    PushBeforeCreate(Seq<char>),
    PushBeforeUpdate(Seq<char>),
}

impl ExecutionConstraintView {
    /// Whether `steps` keep the order: no push of the bookmark stands after
    /// the PR step of the bookmark.
    pub open spec fn kept_by(self, steps: Seq<ExecutionStepView>) -> bool {
        forall|i: int, j: int|
            0 <= i < steps.len() && 0 <= j < steps.len() && #[trigger] steps[i] is Push
                && steps[i].bookmark_name() == self.bookmark() && self.binds(#[trigger] steps[j])
                ==> i < j
    }

    /// The bookmark that the constraint is about.
    pub open spec fn bookmark(self) -> Seq<char> {
        match self {
            ExecutionConstraintView::PushBeforeCreate(name) => name,
            ExecutionConstraintView::PushBeforeUpdate(name) => name,
        }
    }

    /// Whether `step` is the PR step that has to wait for the push.
    pub open spec fn binds(self, step: ExecutionStepView) -> bool {
        step.bookmark_name() == self.bookmark() && match self {
            ExecutionConstraintView::PushBeforeCreate(_) => step is CreatePr,
            ExecutionConstraintView::PushBeforeUpdate(_) => step is UpdateBase,
        }
    }
}

impl View for ExecutionConstraint {
    type V = ExecutionConstraintView;

    open spec fn view(&self) -> ExecutionConstraintView {
        match self {
            ExecutionConstraint::PushBeforeCreate(name) => ExecutionConstraintView::PushBeforeCreate(
                name@,
            ),
            ExecutionConstraint::PushBeforeUpdate(name) => ExecutionConstraintView::PushBeforeUpdate(
                name@,
            ),
        }
    }
}

impl DeepView for ExecutionConstraint {
    type V = ExecutionConstraintView;

    open spec fn deep_view(&self) -> ExecutionConstraintView {
        self@
    }
}

/// What is to be done to bring the remote in line with the stack.
pub struct SubmissionPlan {
    /// The segments of the stack, from trunk upwards
    pub segments: Vec<NarrowedBookmarkSegment>,
    /// The orders that `execution_steps` keep
    pub constraints: Vec<ExecutionConstraint>,
    /// The steps, in the order in which they are carried out
    pub execution_steps: Vec<ExecutionStep>,
    /// The PRs that exist already, by bookmark name
    pub existing_prs: PullRequestMap,
    /// The remote to push to
    pub remote: String,
    /// The trunk's branch
    pub default_branch: String,
}

/// What a [`SubmissionPlan`] holds, as plain values.
pub struct SubmissionPlanView {
    pub segments: Seq<NarrowedBookmarkSegmentView>,
    pub constraints: Seq<ExecutionConstraintView>,
    pub execution_steps: Seq<ExecutionStepView>,
    pub existing_prs: Map<Seq<char>, PullRequestView>,
    pub remote: Seq<char>,
    pub default_branch: Seq<char>,
}

impl View for SubmissionPlan {
    type V = SubmissionPlanView;

    open spec fn view(&self) -> SubmissionPlanView {
        SubmissionPlanView {
            segments: self.segments.deep_view(),
            constraints: self.constraints.deep_view(),
            execution_steps: self.execution_steps.deep_view(),
            existing_prs: pull_request_views(self.existing_prs@),
            remote: self.remote@,
            default_branch: self.default_branch@,
        }
    }
}

/// The test for a push.
pub open spec fn is_push() -> spec_fn(ExecutionStepView) -> bool {
    |s: ExecutionStepView| s is Push
}

/// The test for a change of base.
pub open spec fn is_update() -> spec_fn(ExecutionStepView) -> bool {
    |s: ExecutionStepView| s is UpdateBase
}

/// The test for the creation of a PR.
pub open spec fn is_create() -> spec_fn(ExecutionStepView) -> bool {
    |s: ExecutionStepView| s is CreatePr
}

/// How many of `steps` pass `test`.
fn count_steps(steps: &Vec<ExecutionStep>, kind: u8) -> (r: usize)
    requires
        kind < 3,
    ensures
        r == steps.deep_view().filter(
            if kind == 0 {
                is_push()
            } else if kind == 1 {
                is_update()
            } else {
                is_create()
            },
        ).len(),
{
    let ghost all = steps.deep_view();
    let ghost test = if kind == 0 {
        is_push()
    } else if kind == 1 {
        is_update()
    } else {
        is_create()
    };
    let mut count: usize = 0;
    let mut i: usize = 0;
    proof {
        assert(all.take(0) =~= Seq::<ExecutionStepView>::empty());
        reveal(Seq::filter);
    }
    while i < steps.len()
        invariant
            all == steps.deep_view(),
            kind < 3,
            test == (if kind == 0 {
                is_push()
            } else if kind == 1 {
                is_update()
            } else {
                is_create()
            }),
            i <= steps@.len(),
            count <= i,
            count == all.take(i as int).filter(test).len(),
        decreases steps@.len() - i,
    {
        proof {
            lemma_deep_view_index(*steps, i as int);
            assert(all.take(i + 1) =~= all.take(i as int).push(all[i as int]));
            all.take(i as int).lemma_filter_push(all[i as int], test);
        }
        let hit = match &steps[i] {
            ExecutionStep::Push(_) => kind == 0,
            ExecutionStep::UpdateBase(_) => kind == 1,
            ExecutionStep::CreatePr(_) => kind == 2,
        };
        if hit {
            count += 1;
        }
        i += 1;
    }
    proof {
        assert(all.take(i as int) =~= all);
    }
    count
}

impl SubmissionPlan {
    /// Whether there is nothing to do.
    pub fn is_empty(&self) -> (r: bool)
        ensures
            r == (self@.execution_steps.len() == 0),
    {
        self.execution_steps.len() == 0
    }

    /// The number of bookmarks that are pushed.
    pub fn count_pushes(&self) -> (r: usize)
        ensures
            r == self@.execution_steps.filter(is_push()).len(),
    {
        count_steps(&self.execution_steps, 0)
    }

    /// The number of PRs whose base is changed.
    pub fn count_updates(&self) -> (r: usize)
        ensures
            r == self@.execution_steps.filter(is_update()).len(),
    {
        count_steps(&self.execution_steps, 1)
    }

    /// The number of PRs that are created.
    pub fn count_creates(&self) -> (r: usize)
        ensures
            r == self@.execution_steps.filter(is_create()).len(),
    {
        count_steps(&self.execution_steps, 2)
    }
}

/// The branch that the PR of segment `i` belongs on: the default branch for
/// the first segment, the bookmark of the segment below for each other one.
pub open spec fn expected_base(
    segments: Seq<NarrowedBookmarkSegmentView>,
    default_branch: Seq<char>,
    i: int,
) -> Seq<char> {
    if i == 0 {
        default_branch
    } else {
        segments[i - 1].bookmark.name
    }
}

/// The push of segment `i`, where its bookmark is not in sync with the
/// remote.
pub open spec fn push_of(segments: Seq<NarrowedBookmarkSegmentView>, i: int) -> Seq<
    ExecutionStepView,
> {
    if !segments[i].bookmark.is_synced {
        seq![ExecutionStepView::Push(segments[i].bookmark)]
    } else {
        seq![]
    }
}

/// The change of base for segment `i`, where its PR exists and sits on
/// another base than the expected one.
pub open spec fn update_of(
    segments: Seq<NarrowedBookmarkSegmentView>,
    lookups: Seq<Option<PullRequestView>>,
    default_branch: Seq<char>,
    i: int,
) -> Seq<ExecutionStepView> {
    match lookups[i] {
        Some(pr) if pr.base_ref != expected_base(segments, default_branch, i) => seq![
            ExecutionStepView::UpdateBase(
                PrBaseUpdateView {
                    bookmark: segments[i].bookmark,
                    current_base: pr.base_ref,
                    expected_base: expected_base(segments, default_branch, i),
                    pr,
                },
            ),
        ],
        _ => seq![],
    }
}

/// The creation of the PR of segment `i`, where it has none.
pub open spec fn create_of(
    segments: Seq<NarrowedBookmarkSegmentView>,
    lookups: Seq<Option<PullRequestView>>,
    default_branch: Seq<char>,
    i: int,
) -> Seq<ExecutionStepView> {
    match lookups[i] {
        None => seq![
            ExecutionStepView::CreatePr(
                PrToCreateView {
                    bookmark: segments[i].bookmark,
                    base_branch: expected_base(segments, default_branch, i),
                    title: segment_title(segments[i]),
                    draft: false,
                },
            ),
        ],
        Some(_) => seq![],
    }
}

/// The order that segment `i` asks for, where it is pushed and has a PR
/// step.
pub open spec fn constraint_of(
    segments: Seq<NarrowedBookmarkSegmentView>,
    lookups: Seq<Option<PullRequestView>>,
    default_branch: Seq<char>,
    i: int,
) -> Seq<ExecutionConstraintView> {
    if segments[i].bookmark.is_synced {
        seq![]
    } else if lookups[i] is None {
        seq![ExecutionConstraintView::PushBeforeCreate(segments[i].bookmark.name)]
    } else if update_of(segments, lookups, default_branch, i).len() > 0 {
        seq![ExecutionConstraintView::PushBeforeUpdate(segments[i].bookmark.name)]
    } else {
        seq![]
    }
}

/// The pushes of the first `k` segments, in stack order.
pub open spec fn pushes(segments: Seq<NarrowedBookmarkSegmentView>, k: nat) -> Seq<
    ExecutionStepView,
>
    decreases k,
{
    if k == 0 {
        seq![]
    } else {
        pushes(segments, (k - 1) as nat) + push_of(segments, k - 1)
    }
}

/// The changes of base of the first `k` segments, in stack order.
pub open spec fn updates(
    segments: Seq<NarrowedBookmarkSegmentView>,
    lookups: Seq<Option<PullRequestView>>,
    default_branch: Seq<char>,
    k: nat,
) -> Seq<ExecutionStepView>
    decreases k,
{
    if k == 0 {
        seq![]
    } else {
        updates(segments, lookups, default_branch, (k - 1) as nat) + update_of(
            segments,
            lookups,
            default_branch,
            k - 1,
        )
    }
}

/// The creations of the first `k` segments, in stack order.
pub open spec fn creates(
    segments: Seq<NarrowedBookmarkSegmentView>,
    lookups: Seq<Option<PullRequestView>>,
    default_branch: Seq<char>,
    k: nat,
) -> Seq<ExecutionStepView>
    decreases k,
{
    if k == 0 {
        seq![]
    } else {
        creates(segments, lookups, default_branch, (k - 1) as nat) + create_of(
            segments,
            lookups,
            default_branch,
            k - 1,
        )
    }
}

/// The orders that the first `k` segments ask for.
pub open spec fn constraints(
    segments: Seq<NarrowedBookmarkSegmentView>,
    lookups: Seq<Option<PullRequestView>>,
    default_branch: Seq<char>,
    k: nat,
) -> Seq<ExecutionConstraintView>
    decreases k,
{
    if k == 0 {
        seq![]
    } else {
        constraints(segments, lookups, default_branch, (k - 1) as nat) + constraint_of(
            segments,
            lookups,
            default_branch,
            k - 1,
        )
    }
}

/// The PRs found for the first `k` segments, by bookmark name. Where a name
/// occurs twice, what was found last stands.
pub open spec fn found_prs(
    segments: Seq<NarrowedBookmarkSegmentView>,
    lookups: Seq<Option<PullRequestView>>,
    k: nat,
) -> Map<Seq<char>, PullRequestView>
    decreases k,
{
    if k == 0 {
        Map::empty()
    } else {
        let before = found_prs(segments, lookups, (k - 1) as nat);
        match lookups[k - 1] {
            Some(pr) => before.insert(segments[k - 1].bookmark.name, pr),
            None => before,
        }
    }
}

/// The steps of a submission: first every push, then every change of base,
/// then every creation, each group in stack order. So a bookmark is on the
/// remote before its PR is touched, and a PR's base exists before the PR is
/// created.
pub open spec fn submission_steps(
    segments: Seq<NarrowedBookmarkSegmentView>,
    lookups: Seq<Option<PullRequestView>>,
    default_branch: Seq<char>,
) -> Seq<ExecutionStepView> {
    pushes(segments, segments.len()) + updates(segments, lookups, default_branch, segments.len())
        + creates(segments, lookups, default_branch, segments.len())
}

/// The submission plan for a stack, where `lookups[i]` is the open PR that
/// the platform has for the bookmark of segment `i`, if any.
pub open spec fn submission_plan(
    segments: Seq<NarrowedBookmarkSegmentView>,
    lookups: Seq<Option<PullRequestView>>,
    remote: Seq<char>,
    default_branch: Seq<char>,
) -> SubmissionPlanView {
    SubmissionPlanView {
        segments,
        constraints: constraints(segments, lookups, default_branch, segments.len()),
        execution_steps: submission_steps(segments, lookups, default_branch),
        existing_prs: found_prs(segments, lookups, segments.len()),
        remote,
        default_branch,
    }
}

/// The deep view of two vectors put together is that of the first followed
/// by that of the second.
proof fn lemma_deep_view_append<T: DeepView>(first: Vec<T>, second: Vec<T>, both: Vec<T>)
    requires
        both@ == first@ + second@,
    ensures
        both.deep_view() == first.deep_view() + second.deep_view(),
{
    assert(both.deep_view() =~= first.deep_view() + second.deep_view());
}

/// Plans a submission from the stack and from what the platform holds.
///
/// `lookups[i]` is the open PR that the platform has for the bookmark of
/// segment `i`, or `None` where it has none. A bookmark that is not in sync
/// with the remote is pushed. A segment without a PR gets one, on the
/// default branch for the first segment and on the bookmark below for each
/// other one, with the title of the segment's root change and not as a
/// draft. A PR on another base than that is given the expected base.
/// Nothing is fetched or changed here.
pub fn plan_submission(
    analysis: &SubmissionAnalysis,
    lookups: &Vec<Option<PullRequest>>,
    remote: &str,
    default_branch: &str,
) -> (plan: SubmissionPlan)
    requires
        lookups@.len() == analysis.segments@.len(),
    ensures
        plan@ == submission_plan(
            analysis@.segments,
            lookups.deep_view(),
            remote@,
            default_branch@,
        ),
{
    let ghost segs = analysis@.segments;
    let ghost looks = lookups.deep_view();
    let ghost base = default_branch@;

    let mut segments: Vec<NarrowedBookmarkSegment> = Vec::new();
    let mut push_list: Vec<ExecutionStep> = Vec::new();
    let mut update_list: Vec<ExecutionStep> = Vec::new();
    let mut create_list: Vec<ExecutionStep> = Vec::new();
    let mut constraint_list: Vec<ExecutionConstraint> = Vec::new();
    let mut existing: PullRequestMap = StringHashMap::new();

    let n = analysis.segments.len();
    let mut i: usize = 0;
    proof {
        assert(segments.deep_view() =~= segs.take(0));
        assert(push_list.deep_view() =~= pushes(segs, 0));
        assert(update_list.deep_view() =~= updates(segs, looks, base, 0));
        assert(create_list.deep_view() =~= creates(segs, looks, base, 0));
        assert(constraint_list.deep_view() =~= constraints(segs, looks, base, 0));
        assert(pull_request_views(existing@) =~= found_prs(segs, looks, 0));
    }
    while i < n
        invariant
            n == analysis.segments@.len(),
            n == lookups@.len(),
            segs == analysis@.segments,
            segs.len() == n,
            looks == lookups.deep_view(),
            looks.len() == n,
            base == default_branch@,
            i <= n,
            segments.deep_view() == segs.take(i as int),
            push_list.deep_view() == pushes(segs, i as nat),
            update_list.deep_view() == updates(segs, looks, base, i as nat),
            create_list.deep_view() == creates(segs, looks, base, i as nat),
            constraint_list.deep_view() == constraints(segs, looks, base, i as nat),
            pull_request_views(existing@) == found_prs(segs, looks, i as nat),
        decreases n - i,
    {
        let segment = &analysis.segments[i];
        let bookmark = &segment.bookmark;
        proof {
            lemma_deep_view_index(analysis.segments, i as int);
            lemma_deep_view_index(*lookups, i as int);
            assert(segs[i as int] == segment@);
            assert(looks[i as int] == lookups@[i as int].deep_view());
            if i > 0 {
                lemma_deep_view_index(analysis.segments, i - 1);
            }
        }
        let ghost old_segments = segments;
        let copy = segment.clone();
        segments.push(copy);
        proof {
            lemma_deep_view_push(old_segments, segments, copy);
            assert(segments.deep_view() =~= segs.take(i + 1));
        }

        let needs_push = !bookmark.is_synced;
        if needs_push {
            let ghost before = push_list;
            let step = ExecutionStep::Push(bookmark.clone());
            push_list.push(step);
            proof {
                lemma_deep_view_push(before, push_list, step);
            }
        }
        proof {
            assert(push_list.deep_view() =~= pushes(segs, i as nat) + push_of(segs, i as int));
        }

        let expected: String = if i == 0 {
            default_branch.to_owned()
        } else {
            analysis.segments[i - 1].bookmark.name.clone()
        };
        assert(expected@ == expected_base(segs, base, i as int));

        match &lookups[i] {
            Some(pr) => {
                let ghost old_existing = existing@;
                let found = pr.clone();
                existing.insert(bookmark.name.clone(), found);
                proof {
                    assert(pull_request_views(existing@) =~= pull_request_views(
                        old_existing,
                    ).insert(bookmark.name@, pr@));
                }
                if !str_eq(pr.base_ref.as_str(), expected.as_str()) {
                    let ghost before = update_list;
                    let step = ExecutionStep::UpdateBase(
                        PrBaseUpdate {
                            bookmark: bookmark.clone(),
                            current_base: pr.base_ref.clone(),
                            expected_base: expected,
                            pr: pr.clone(),
                        },
                    );
                    update_list.push(step);
                    proof {
                        lemma_deep_view_push(before, update_list, step);
                    }
                    if needs_push {
                        let ghost before_c = constraint_list;
                        let constraint = ExecutionConstraint::PushBeforeUpdate(
                            bookmark.name.clone(),
                        );
                        constraint_list.push(constraint);
                        proof {
                            lemma_deep_view_push(before_c, constraint_list, constraint);
                        }
                    }
                }
            },
            None => {
                let ghost before = create_list;
                let step = ExecutionStep::CreatePr(
                    PrToCreate {
                        bookmark: bookmark.clone(),
                        base_branch: expected,
                        title: title_of_segment(segment),
                        draft: false,
                    },
                );
                create_list.push(step);
                proof {
                    lemma_deep_view_push(before, create_list, step);
                }
                if needs_push {
                    let ghost before_c = constraint_list;
                    let constraint = ExecutionConstraint::PushBeforeCreate(bookmark.name.clone());
                    constraint_list.push(constraint);
                    proof {
                        lemma_deep_view_push(before_c, constraint_list, constraint);
                    }
                }
            },
        }
        proof {
            assert(update_list.deep_view() =~= updates(segs, looks, base, i as nat) + update_of(
                segs,
                looks,
                base,
                i as int,
            ));
            assert(create_list.deep_view() =~= creates(segs, looks, base, i as nat) + create_of(
                segs,
                looks,
                base,
                i as int,
            ));
            assert(constraint_list.deep_view() =~= constraints(segs, looks, base, i as nat)
                + constraint_of(segs, looks, base, i as int));
        }
        i += 1;
    }
    let ghost pushed = push_list;
    let ghost updated = update_list;
    let ghost created = create_list;
    let mut execution_steps = push_list;
    execution_steps.append(&mut update_list);
    let ghost first_two = execution_steps;
    execution_steps.append(&mut create_list);
    proof {
        lemma_deep_view_append(pushed, updated, first_two);
        lemma_deep_view_append(first_two, created, execution_steps);
        assert(segs.take(n as int) =~= segs);
    }
    SubmissionPlan {
        segments,
        constraints: constraint_list,
        execution_steps,
        existing_prs: existing,
        remote: remote.to_owned(),
        default_branch: default_branch.to_owned(),
    }
}

/// Whether `lookup` is what `platform` found when it was asked for the
/// open PR of the bookmark `name`.
pub open spec fn lookup_answered<P: PlatformService>(
    platform: &P,
    name: Seq<char>,
    lookup: Option<PullRequestView>,
) -> bool {
    exists|text: &str, found: Option<PullRequest>| #[trigger]
        call_ensures(
            P::find_existing_pr,
            (platform, text),
            Ok::<Option<PullRequest>, Error>(found),
        ) && text@ == name && found.deep_view() == lookup
}

/// Whether `platform` answered the lookup of the open PR of the bookmark
/// `name` with the error `error`.
pub open spec fn lookup_failed<P: PlatformService>(
    platform: &P,
    name: Seq<char>,
    error: Error,
) -> bool {
    exists|text: &str| #[trigger]
        call_ensures(
            P::find_existing_pr,
            (platform, text),
            Err::<Option<PullRequest>, Error>(error),
        ) && text@ == name
}

/// Whether the lookup for each of the first `n` bookmarks of the stack was
/// answered with the entry of `lookups` at its place.
pub open spec fn lookups_answered<P: PlatformService>(
    platform: &P,
    segments: Seq<NarrowedBookmarkSegmentView>,
    lookups: Seq<Option<PullRequestView>>,
    n: int,
) -> bool {
    forall|i: int|
        0 <= i < n ==> lookup_answered(
            platform,
            (#[trigger] segments[i]).bookmark.name,
            lookups[i],
        )
}

/// Plans a submission for the stack, asking `platform` for the open PR of
/// each bookmark, once for each and in stack order.
///
/// Where every lookup is answered, the plan is the one that
/// [`submission_plan`] gives for what the platform found for each bookmark.
/// The first lookup that fails ends the planning with the error that the
/// platform gave, and no plan: the lookups for the bookmarks below were
/// answered, none above was made.
pub fn create_submission_plan<P: PlatformService>(
    analysis: &SubmissionAnalysis,
    platform: &P,
    remote: &str,
    default_branch: &str,
) -> (r: Result<SubmissionPlan, Error>)
    ensures
        match r {
            Ok(plan) => exists|lookups: Seq<Option<PullRequestView>>|
                lookups.len() == analysis@.segments.len() && plan@ == #[trigger] submission_plan(
                    analysis@.segments,
                    lookups,
                    remote@,
                    default_branch@,
                ) && lookups_answered(
                    platform,
                    analysis@.segments,
                    lookups,
                    analysis@.segments.len() as int,
                ),
            Err(e) => exists|k: int, lookups: Seq<Option<PullRequestView>>|
                0 <= k < analysis@.segments.len() && lookup_failed(
                    platform,
                    analysis@.segments[k].bookmark.name,
                    e,
                ) && #[trigger] lookups_answered(platform, analysis@.segments, lookups, k),
        },
{
    let ghost segments = analysis@.segments;
    let mut lookups: Vec<Option<PullRequest>> = Vec::new();
    let n = analysis.segments.len();
    let mut i: usize = 0;
    while i < n
        invariant
            n == analysis.segments@.len(),
            segments == analysis@.segments,
            i <= n,
            lookups@.len() == i,
            lookups_answered(platform, segments, lookups.deep_view(), i as int),
        decreases n - i,
    {
        let text = analysis.segments[i].bookmark.name.as_str();
        let ghost before = lookups;
        proof {
            lemma_deep_view_index(analysis.segments, i as int);
        }
        let answer = platform.find_existing_pr(text);
        match answer {
            Ok(found) => {
                lookups.push(found);
                proof {
                    lemma_deep_view_push(before, lookups, found);
                    assert(lookup_answered(
                        platform,
                        segments[i as int].bookmark.name,
                        lookups.deep_view()[i as int],
                    ));
                    assert forall|j: int| 0 <= j < i + 1 implies lookup_answered(
                        platform,
                        (#[trigger] segments[j]).bookmark.name,
                        lookups.deep_view()[j],
                    ) by {
                        if j < i {
                            assert(lookups.deep_view()[j] == before.deep_view()[j]);
                        }
                    }
                }
            },
            Err(e) => {
                proof {
                    assert(lookup_failed(platform, segments[i as int].bookmark.name, e));
                    assert(lookups_answered(platform, segments, lookups.deep_view(), i as int));
                }
                return Err(e);
            },
        }
        i += 1;
    }
    let plan = plan_submission(analysis, &lookups, remote, default_branch);
    proof {
        assert(lookups.deep_view().len() == analysis@.segments.len());
    }
    Ok(plan)
}

/// Every one of the pushes is a push.
pub proof fn lemma_pushes_kind(segments: Seq<NarrowedBookmarkSegmentView>, k: nat)
    ensures
        forall|j: int| 0 <= j < pushes(segments, k).len() ==> #[trigger] pushes(segments, k)[j] is Push,
    decreases k,
{
    if k > 0 {
        lemma_pushes_kind(segments, (k - 1) as nat);
    }
}

/// Every one of the changes of base is a change of base.
pub proof fn lemma_updates_kind(
    segments: Seq<NarrowedBookmarkSegmentView>,
    lookups: Seq<Option<PullRequestView>>,
    default_branch: Seq<char>,
    k: nat,
)
    ensures
        forall|j: int|
            0 <= j < updates(segments, lookups, default_branch, k).len() ==> #[trigger] updates(
                segments,
                lookups,
                default_branch,
                k,
            )[j] is UpdateBase,
    decreases k,
{
    if k > 0 {
        lemma_updates_kind(segments, lookups, default_branch, (k - 1) as nat);
    }
}

/// Every one of the creations is a creation.
pub proof fn lemma_creates_kind(
    segments: Seq<NarrowedBookmarkSegmentView>,
    lookups: Seq<Option<PullRequestView>>,
    default_branch: Seq<char>,
    k: nat,
)
    ensures
        forall|j: int|
            0 <= j < creates(segments, lookups, default_branch, k).len() ==> #[trigger] creates(
                segments,
                lookups,
                default_branch,
                k,
            )[j] is CreatePr,
    decreases k,
{
    if k > 0 {
        lemma_creates_kind(segments, lookups, default_branch, (k - 1) as nat);
    }
}

/// In a submission no push stands after a step of another kind, so every
/// bookmark is on the remote before any PR is touched: the steps keep every
/// order between the push of a bookmark and its PR step.
pub proof fn lemma_pushes_first(
    segments: Seq<NarrowedBookmarkSegmentView>,
    lookups: Seq<Option<PullRequestView>>,
    default_branch: Seq<char>,
    constraint: ExecutionConstraintView,
)
    ensures
        forall|i: int, j: int|
            #![trigger submission_steps(segments, lookups, default_branch)[i], submission_steps(segments, lookups, default_branch)[j]]
            0 <= i < j < submission_steps(segments, lookups, default_branch).len()
                && submission_steps(segments, lookups, default_branch)[j] is Push
                ==> submission_steps(segments, lookups, default_branch)[i] is Push,
        constraint.kept_by(submission_steps(segments, lookups, default_branch)),
{
    let n = segments.len();
    lemma_pushes_kind(segments, n);
    lemma_updates_kind(segments, lookups, default_branch, n);
    lemma_creates_kind(segments, lookups, default_branch, n);
    let p = pushes(segments, n);
    let u = updates(segments, lookups, default_branch, n);
    let c = creates(segments, lookups, default_branch, n);
    let steps = submission_steps(segments, lookups, default_branch);
    assert forall|i: int| 0 <= i < steps.len() implies ((#[trigger] steps[i]) is Push <==> i
        < p.len()) by {
        if i < p.len() {
            assert(steps[i] == p[i]);
        } else if i < p.len() + u.len() {
            assert(steps[i] == u[i - p.len()]);
        } else {
            assert(steps[i] == c[i - p.len() - u.len()]);
        }
    }
}

/// The pushes of a submission are those of the stack's segments, in stack
/// order.
pub proof fn lemma_push_steps(
    segments: Seq<NarrowedBookmarkSegmentView>,
    lookups: Seq<Option<PullRequestView>>,
    default_branch: Seq<char>,
)
    ensures
        submission_steps(segments, lookups, default_branch).filter(is_push()) == pushes(
            segments,
            segments.len(),
        ),
{
    let n = segments.len();
    let p = pushes(segments, n);
    let u = updates(segments, lookups, default_branch, n);
    let c = creates(segments, lookups, default_branch, n);
    let test = is_push();
    assert forall|j: int| 0 <= j < p.len() implies test(#[trigger] p[j]) == (0 == 0int) by {
        lemma_pushes_kind(segments, n);
    }
    assert forall|j: int| 0 <= j < u.len() implies test(#[trigger] u[j]) == (0 == 1int) by {
        lemma_updates_kind(segments, lookups, default_branch, n);
    }
    assert forall|j: int| 0 <= j < c.len() implies test(#[trigger] c[j]) == (0 == 2int) by {
        lemma_creates_kind(segments, lookups, default_branch, n);
    }
    lemma_split_by_kind(p, u, c, test, 0);
}

/// The changes of base of a submission are those of the stack's segments,
/// in stack order.
pub proof fn lemma_update_steps(
    segments: Seq<NarrowedBookmarkSegmentView>,
    lookups: Seq<Option<PullRequestView>>,
    default_branch: Seq<char>,
)
    ensures
        submission_steps(segments, lookups, default_branch).filter(is_update()) == updates(
            segments,
            lookups,
            default_branch,
            segments.len(),
        ),
{
    let n = segments.len();
    let p = pushes(segments, n);
    let u = updates(segments, lookups, default_branch, n);
    let c = creates(segments, lookups, default_branch, n);
    let test = is_update();
    assert forall|j: int| 0 <= j < p.len() implies test(#[trigger] p[j]) == (1 == 0int) by {
        lemma_pushes_kind(segments, n);
    }
    assert forall|j: int| 0 <= j < u.len() implies test(#[trigger] u[j]) == (1 == 1int) by {
        lemma_updates_kind(segments, lookups, default_branch, n);
    }
    assert forall|j: int| 0 <= j < c.len() implies test(#[trigger] c[j]) == (1 == 2int) by {
        lemma_creates_kind(segments, lookups, default_branch, n);
    }
    lemma_split_by_kind(p, u, c, test, 1);
}

/// The creations of a submission are those of the stack's segments, in
/// stack order.
pub proof fn lemma_create_steps(
    segments: Seq<NarrowedBookmarkSegmentView>,
    lookups: Seq<Option<PullRequestView>>,
    default_branch: Seq<char>,
)
    ensures
        submission_steps(segments, lookups, default_branch).filter(is_create()) == creates(
            segments,
            lookups,
            default_branch,
            segments.len(),
        ),
{
    let n = segments.len();
    let p = pushes(segments, n);
    let u = updates(segments, lookups, default_branch, n);
    let c = creates(segments, lookups, default_branch, n);
    let test = is_create();
    assert forall|j: int| 0 <= j < p.len() implies test(#[trigger] p[j]) == (2 == 0int) by {
        lemma_pushes_kind(segments, n);
    }
    assert forall|j: int| 0 <= j < u.len() implies test(#[trigger] u[j]) == (2 == 1int) by {
        lemma_updates_kind(segments, lookups, default_branch, n);
    }
    assert forall|j: int| 0 <= j < c.len() implies test(#[trigger] c[j]) == (2 == 2int) by {
        lemma_creates_kind(segments, lookups, default_branch, n);
    }
    lemma_split_by_kind(p, u, c, test, 2);
}

/// Of three sequences put together, a filter that keeps one of them whole
/// and nothing of the other two gives that one.
proof fn lemma_split_by_kind(
    p: Seq<ExecutionStepView>,
    u: Seq<ExecutionStepView>,
    c: Seq<ExecutionStepView>,
    test: spec_fn(ExecutionStepView) -> bool,
    which: int,
)
    requires
        0 <= which < 3,
        forall|j: int| 0 <= j < p.len() ==> test(#[trigger] p[j]) == (which == 0),
        forall|j: int| 0 <= j < u.len() ==> test(#[trigger] u[j]) == (which == 1),
        forall|j: int| 0 <= j < c.len() ==> test(#[trigger] c[j]) == (which == 2),
    ensures
        (p + u + c).filter(test) == (if which == 0 {
            p
        } else if which == 1 {
            u
        } else {
            c
        }),
{
    Seq::filter_distributes_over_add(p, u, test);
    Seq::filter_distributes_over_add(p + u, c, test);
    if which == 0 {
        lemma_filter_keeps_all(p, test);
    } else {
        lemma_filter_keeps_none(p, test);
    }
    if which == 1 {
        lemma_filter_keeps_all(u, test);
    } else {
        lemma_filter_keeps_none(u, test);
    }
    if which == 2 {
        lemma_filter_keeps_all(c, test);
    } else {
        lemma_filter_keeps_none(c, test);
    }
    let empty = Seq::<ExecutionStepView>::empty();
    assert(p + empty + empty =~= p);
    assert(empty + u + empty =~= u);
    assert(empty + empty + c =~= c);
}

/// Whether the first `k` of `created` are creations that are stacked on one
/// another: the first is based on `default_branch`, each other one on the
/// bookmark of the one before it.
pub open spec fn stacked_creates(
    created: Seq<ExecutionStepView>,
    default_branch: Seq<char>,
    k: nat,
) -> bool
    decreases k,
{
    k == 0 || (stacked_creates(created, default_branch, (k - 1) as nat) && created[k - 1]
        is CreatePr && created[k - 1]->CreatePr_0.base_branch == (if k == 1 {
        default_branch
    } else {
        created[k - 2].bookmark_name()
    }))
}

/// Creations that are based as expected on the segments of a stack are
/// stacked on one another.
proof fn lemma_stacked_creates(
    created: Seq<ExecutionStepView>,
    segments: Seq<NarrowedBookmarkSegmentView>,
    default_branch: Seq<char>,
    k: nat,
)
    requires
        k <= created.len(),
        created.len() == segments.len(),
        forall|i: int|
            0 <= i < created.len() ==> (#[trigger] created[i]) is CreatePr
                && created[i]->CreatePr_0.bookmark == segments[i].bookmark
                && created[i]->CreatePr_0.base_branch == expected_base(segments, default_branch, i),
    ensures
        stacked_creates(created, default_branch, k),
    decreases k,
{
    if k > 0 {
        lemma_stacked_creates(created, segments, default_branch, (k - 1) as nat);
        assert(created[k - 1] is CreatePr);
        if k > 1 {
            assert(created[k - 2] is CreatePr);
        }
    }
}

/// Where no bookmark of the stack has a PR, the plan creates one PR for each
/// segment, in stack order and not as a draft: the first on the default
/// branch, each other one on the bookmark of the PR before it. No base is
/// changed. These creations are all the creations among the plan's steps.
pub proof fn lemma_new_stack_creates(
    segments: Seq<NarrowedBookmarkSegmentView>,
    lookups: Seq<Option<PullRequestView>>,
    default_branch: Seq<char>,
)
    requires
        lookups.len() == segments.len(),
        forall|i: int| 0 <= i < lookups.len() ==> lookups[i] is None,
    ensures
        ({
            let created = creates(segments, lookups, default_branch, segments.len());
            &&& created.len() == segments.len()
            &&& forall|i: int|
                0 <= i < segments.len() ==> #[trigger] created[i] == ExecutionStepView::CreatePr(
                    PrToCreateView {
                        bookmark: segments[i].bookmark,
                        base_branch: expected_base(segments, default_branch, i),
                        title: segment_title(segments[i]),
                        draft: false,
                    },
                )
            &&& stacked_creates(created, default_branch, segments.len())
        }),
        submission_steps(segments, lookups, default_branch).filter(is_create()) == creates(
            segments,
            lookups,
            default_branch,
            segments.len(),
        ),
        submission_steps(segments, lookups, default_branch).filter(is_update()).len() == 0,
{
    let n = segments.len();
    let c = creates(segments, lookups, default_branch, n);
    lemma_all_created(segments, lookups, default_branch, n);
    lemma_stacked_creates(c, segments, default_branch, n);
    assert(submission_steps(segments, lookups, default_branch).filter(is_update()).len() == 0) by {
        lemma_all_created(segments, lookups, default_branch, n);
        lemma_update_steps(segments, lookups, default_branch);
    }
    assert(submission_steps(segments, lookups, default_branch).filter(is_create()) == c) by {
        lemma_create_steps(segments, lookups, default_branch);
    }
}

/// Where none of the first `k` segments has a PR, each of them gets one and
/// no base is changed.
proof fn lemma_all_created(
    segments: Seq<NarrowedBookmarkSegmentView>,
    lookups: Seq<Option<PullRequestView>>,
    default_branch: Seq<char>,
    k: nat,
)
    requires
        k <= segments.len(),
        lookups.len() == segments.len(),
        forall|i: int| 0 <= i < lookups.len() ==> lookups[i] is None,
    ensures
        updates(segments, lookups, default_branch, k).len() == 0,
        creates(segments, lookups, default_branch, k).len() == k,
        forall|i: int|
            0 <= i < k ==> #[trigger] creates(segments, lookups, default_branch, k)[i]
                == ExecutionStepView::CreatePr(
                PrToCreateView {
                    bookmark: segments[i].bookmark,
                    base_branch: expected_base(segments, default_branch, i),
                    title: segment_title(segments[i]),
                    draft: false,
                },
            ),
    decreases k,
{
    if k > 0 {
        lemma_all_created(segments, lookups, default_branch, (k - 1) as nat);
    }
}

/// The test for the change of base of the PR of the bookmark `name`.
pub open spec fn is_update_of(name: Seq<char>) -> spec_fn(ExecutionStepView) -> bool {
    |s: ExecutionStepView| s is UpdateBase && s.bookmark_name() == name
}

/// Where the bookmark of segment `k` has a PR on another base than the
/// expected one, and no other segment has a bookmark of that name, the plan
/// holds exactly one change of base for that bookmark: from the base that
/// the PR has to the expected one.
pub proof fn lemma_one_update(
    segments: Seq<NarrowedBookmarkSegmentView>,
    lookups: Seq<Option<PullRequestView>>,
    default_branch: Seq<char>,
    k: int,
)
    requires
        lookups.len() == segments.len(),
        0 <= k < segments.len(),
        lookups[k] is Some,
        lookups[k].unwrap().base_ref != expected_base(segments, default_branch, k),
        forall|i: int|
            0 <= i < segments.len() && i != k ==> segments[i].bookmark.name
                != segments[k].bookmark.name,
    ensures
        submission_steps(segments, lookups, default_branch).filter(
            is_update_of(segments[k].bookmark.name),
        ) == seq![
            ExecutionStepView::UpdateBase(
                PrBaseUpdateView {
                    bookmark: segments[k].bookmark,
                    current_base: lookups[k].unwrap().base_ref,
                    expected_base: expected_base(segments, default_branch, k),
                    pr: lookups[k].unwrap(),
                },
            ),
        ],
{
    let n = segments.len();
    let p = pushes(segments, n);
    let u = updates(segments, lookups, default_branch, n);
    let c = creates(segments, lookups, default_branch, n);
    let test = is_update_of(segments[k].bookmark.name);
    assert(p.filter(test) == Seq::<ExecutionStepView>::empty()) by {
        lemma_pushes_kind(segments, n);
        lemma_filter_keeps_none(p, test);
    }
    assert(c.filter(test) == Seq::<ExecutionStepView>::empty()) by {
        lemma_creates_kind(segments, lookups, default_branch, n);
        lemma_filter_keeps_none(c, test);
    }
    assert(u.filter(test) == update_of(segments, lookups, default_branch, k)) by {
        lemma_updates_for(segments, lookups, default_branch, k, n);
    }
    assert((p + u + c).filter(test) == p.filter(test) + u.filter(test) + c.filter(test)) by {
        Seq::filter_distributes_over_add(p, u, test);
        Seq::filter_distributes_over_add(p + u, c, test);
    }
    let empty = Seq::<ExecutionStepView>::empty();
    assert(empty + u.filter(test) + empty =~= u.filter(test));
}

/// The changes of base for the bookmark of segment `k` among those of the
/// first `m` segments: none before segment `k` has been reached, one after.
proof fn lemma_updates_for(
    segments: Seq<NarrowedBookmarkSegmentView>,
    lookups: Seq<Option<PullRequestView>>,
    default_branch: Seq<char>,
    k: int,
    m: nat,
)
    requires
        lookups.len() == segments.len(),
        0 <= k < segments.len(),
        m <= segments.len(),
        lookups[k] is Some,
        lookups[k].unwrap().base_ref != expected_base(segments, default_branch, k),
        forall|i: int|
            0 <= i < segments.len() && i != k ==> segments[i].bookmark.name
                != segments[k].bookmark.name,
    ensures
        updates(segments, lookups, default_branch, m).filter(
            is_update_of(segments[k].bookmark.name),
        ) == (if m > k {
            update_of(segments, lookups, default_branch, k)
        } else {
            seq![]
        }),
    decreases m,
{
    let test = is_update_of(segments[k].bookmark.name);
    if m == 0 {
        lemma_filter_keeps_none(updates(segments, lookups, default_branch, 0), test);
    } else {
        lemma_updates_for(segments, lookups, default_branch, k, (m - 1) as nat);
        let before = updates(segments, lookups, default_branch, (m - 1) as nat);
        let last = update_of(segments, lookups, default_branch, m - 1);
        Seq::filter_distributes_over_add(before, last, test);
        if m - 1 == k {
            lemma_filter_keeps_all(last, test);
            assert(before.filter(test) + last =~= last);
        } else {
            lemma_filter_keeps_none(last, test);
            assert(before.filter(test) + Seq::<ExecutionStepView>::empty() =~= before.filter(test));
        }
    }
}

/// Planning again changes nothing where nothing is left to do: where every
/// bookmark is in sync with the remote and has a PR on the expected base,
/// the plan holds no step. So a plan that was carried out is not carried
/// out twice.
pub proof fn lemma_in_sync_plans_nothing(
    segments: Seq<NarrowedBookmarkSegmentView>,
    lookups: Seq<Option<PullRequestView>>,
    default_branch: Seq<char>,
)
    requires
        lookups.len() == segments.len(),
        forall|i: int| 0 <= i < segments.len() ==> (#[trigger] segments[i]).bookmark.is_synced,
        forall|i: int|
            0 <= i < segments.len() ==> (#[trigger] lookups[i]) is Some
                && lookups[i].unwrap().base_ref == expected_base(segments, default_branch, i),
    ensures
        submission_steps(segments, lookups, default_branch).len() == 0,
        constraints(segments, lookups, default_branch, segments.len()).len() == 0,
{
    lemma_nothing_to_do(segments, lookups, default_branch, segments.len());
}

/// Where each of the first `k` bookmarks is in sync and has a PR on the
/// expected base, none of them gives a step.
proof fn lemma_nothing_to_do(
    segments: Seq<NarrowedBookmarkSegmentView>,
    lookups: Seq<Option<PullRequestView>>,
    default_branch: Seq<char>,
    k: nat,
)
    requires
        k <= segments.len(),
        lookups.len() == segments.len(),
        forall|i: int| 0 <= i < segments.len() ==> (#[trigger] segments[i]).bookmark.is_synced,
        forall|i: int|
            0 <= i < segments.len() ==> (#[trigger] lookups[i]) is Some
                && lookups[i].unwrap().base_ref == expected_base(segments, default_branch, i),
    ensures
        pushes(segments, k).len() == 0,
        updates(segments, lookups, default_branch, k).len() == 0,
        creates(segments, lookups, default_branch, k).len() == 0,
        constraints(segments, lookups, default_branch, k).len() == 0,
    decreases k,
{
    if k > 0 {
        lemma_nothing_to_do(segments, lookups, default_branch, (k - 1) as nat);
        assert(segments[k - 1].bookmark.is_synced);
        assert(lookups[k - 1] is Some);
    }
}

} // verus!
