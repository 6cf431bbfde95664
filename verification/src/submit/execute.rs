//! Submission execution: carrying out a submission plan.
//!
//! The decisions are in [`SubmissionExecution`], a state machine that is
//! handed each answer of the workspace and of the platform. The driver
//! [`execute_submission`] makes the calls one after the other.

use vstd::prelude::*;
use crate::error::Error;
use crate::platform::PlatformService;
use crate::progress::ProgressCallback;
use vstd::hash_map::StringHashMap;
use crate::submit::comment::COMMENT_DATA_PREFIX;
use crate::submit::comment::StackCommentData;
use crate::submit::comment::StackCommentDataView;
use crate::submit::comment::comment_body;
use crate::submit::comment::format_stack_comment;
use crate::submit::plan::ExecutionStep;
use crate::submit::plan::ExecutionStepView;
use crate::submit::plan::SubmissionPlan;
use crate::submit::plan::SubmissionPlanView;
use crate::text::starts_with;
use crate::text::lemma_deep_view_index;
use crate::text::lemma_deep_view_push;
use crate::types::PrComment;
use crate::types::PrCommentView;
use crate::types::PullRequest;
use crate::types::PullRequestMap;
use crate::types::pull_request_views;
use crate::types::PullRequestView;
use crate::workspace::Workspace;

verus! {

/// What the execution of a submission plan came to.
#[derive(Debug)]
pub struct SubmissionResult {
    /// Bookmarks that were pushed
    pub pushed_bookmarks: Vec<String>,
    /// PRs that were created
    pub created_prs: Vec<PullRequest>,
    /// PRs whose base was changed
    pub updated_prs: Vec<PullRequest>,
    /// Bookmark at whose step the execution failed (if any)
    pub failed_bookmark: Option<String>,
    /// Error message of the failure (if any)
    pub error_message: Option<String>,
}

/// What a [`SubmissionResult`] holds, as plain values.
pub struct SubmissionResultView {
    pub pushed_bookmarks: Seq<Seq<char>>,
    pub created_prs: Seq<PullRequestView>,
    pub updated_prs: Seq<PullRequestView>,
    pub failed_bookmark: Option<Seq<char>>,
    pub error_message: Option<Seq<char>>,
}

impl View for SubmissionResult {
    type V = SubmissionResultView;

    open spec fn view(&self) -> SubmissionResultView {
        SubmissionResultView {
            pushed_bookmarks: self.pushed_bookmarks.deep_view(),
            created_prs: self.created_prs.deep_view(),
            updated_prs: self.updated_prs.deep_view(),
            failed_bookmark: self.failed_bookmark.deep_view(),
            error_message: self.error_message.deep_view(),
        }
    }
}

/// The result before any step has run.
pub open spec fn nothing_submitted() -> SubmissionResultView {
    SubmissionResultView {
        pushed_bookmarks: Seq::empty(),
        created_prs: Seq::empty(),
        updated_prs: Seq::empty(),
        failed_bookmark: None,
        error_message: None,
    }
}

impl Default for SubmissionResult {
    fn default() -> (r: Self)
        ensures
            r@ == nothing_submitted(),
    {
        let r = SubmissionResult {
            pushed_bookmarks: Vec::new(),
            created_prs: Vec::new(),
            updated_prs: Vec::new(),
            failed_bookmark: None,
            error_message: None,
        };
        proof {
            assert(r@.pushed_bookmarks =~= Seq::<Seq<char>>::empty());
            assert(r@.created_prs =~= Seq::<PullRequestView>::empty());
            assert(r@.updated_prs =~= Seq::<PullRequestView>::empty());
        }
        r
    }
}

impl SubmissionResult {
    /// Whether no step failed.
    pub fn is_success(&self) -> (r: bool)
        ensures
            r == (self@.failed_bookmark is None),
    {
        self.failed_bookmark.is_none()
    }
}

/// What the workspace answered to a push.
pub enum PushReplyView {
    /// The bookmark was pushed
    Done,
    /// The push failed, with this text
    Failed(Seq<char>),
}

/// What the platform answered to the creation of a PR or to a change of
/// base.
pub enum PrReplyView {
    /// The call went through and gave this PR
    Done(PullRequestView),
    /// The call failed, with this text
    Failed(Seq<char>),
}

/// What is answered to a step, whichever call the step makes.
pub struct SubmitReplyView {
    pub push: PushReplyView,
    pub pr: PrReplyView,
}

/// The place of the platform's answer where the step is a push, which asks
/// nothing of the platform.
pub open spec fn no_pr_reply() -> PrReplyView {
    PrReplyView::Failed(Seq::empty())
}

/// The answer to a push, as the execution reads it.
pub open spec fn push_reply(reply: Result<(), Error>) -> PushReplyView {
    match reply {
        Ok(_) => PushReplyView::Done,
        Err(e) => PushReplyView::Failed(e@.message()),
    }
}

/// The answer of the platform, as the execution reads it.
pub open spec fn pr_reply(reply: Result<PullRequest, Error>) -> PrReplyView {
    match reply {
        Ok(pr) => PrReplyView::Done(pr@),
        Err(e) => PrReplyView::Failed(e@.message()),
    }
}

/// How far a submission has come.
pub struct SubmitRunView {
    pub result: SubmissionResultView,
    pub stopped: bool,
}

/// The run before any step.
pub open spec fn initial_submit_run() -> SubmitRunView {
    SubmitRunView { result: nothing_submitted(), stopped: false }
}

/// The run after a failure at `bookmark`. What was applied stays applied
/// and stays in the result.
pub open spec fn failed_submit_run(
    run: SubmitRunView,
    bookmark: Seq<char>,
    text: Seq<char>,
) -> SubmitRunView {
    SubmitRunView {
        result: SubmissionResultView {
            failed_bookmark: Some(bookmark),
            error_message: Some(text),
            ..run.result
        },
        stopped: true,
    }
}

/// The run after one step that got the answer `reply`.
pub open spec fn after_submit_step(
    run: SubmitRunView,
    step: ExecutionStepView,
    reply: SubmitReplyView,
) -> SubmitRunView {
    match step {
        ExecutionStepView::Push(bookmark) => match reply.push {
            PushReplyView::Done => SubmitRunView {
                result: SubmissionResultView {
                    pushed_bookmarks: run.result.pushed_bookmarks.push(bookmark.name),
                    ..run.result
                },
                stopped: false,
            },
            PushReplyView::Failed(text) => failed_submit_run(run, bookmark.name, text),
        },
        ExecutionStepView::CreatePr(create) => match reply.pr {
            PrReplyView::Done(pr) => SubmitRunView {
                result: SubmissionResultView {
                    created_prs: run.result.created_prs.push(pr),
                    ..run.result
                },
                stopped: false,
            },
            PrReplyView::Failed(text) => failed_submit_run(run, create.bookmark.name, text),
        },
        ExecutionStepView::UpdateBase(update) => match reply.pr {
            PrReplyView::Done(pr) => SubmitRunView {
                result: SubmissionResultView {
                    updated_prs: run.result.updated_prs.push(pr),
                    ..run.result
                },
                stopped: false,
            },
            PrReplyView::Failed(text) => failed_submit_run(run, update.bookmark.name, text),
        },
    }
}

/// The run after the first `k` steps, where `replies[i]` is what is
/// answered to step `i`. The first failure stops the run.
pub open spec fn submit_steps(
    steps: Seq<ExecutionStepView>,
    replies: Seq<SubmitReplyView>,
    k: nat,
) -> SubmitRunView
    decreases k,
{
    if k == 0 {
        initial_submit_run()
    } else {
        let before = submit_steps(steps, replies, (k - 1) as nat);
        if before.stopped {
            before
        } else {
            after_submit_step(before, steps[k - 1], replies[k - 1])
        }
    }
}

/// What the execution of `steps` comes to under the given answers.
pub open spec fn submission_result(
    steps: Seq<ExecutionStepView>,
    replies: Seq<SubmitReplyView>,
) -> SubmissionResultView {
    submit_steps(steps, replies, steps.len()).result
}

/// A submission that has stopped stays as it is.
pub proof fn lemma_submit_stopped_stays(
    steps: Seq<ExecutionStepView>,
    replies: Seq<SubmitReplyView>,
    k: nat,
    n: nat,
)
    requires
        k <= n,
        submit_steps(steps, replies, k).stopped,
    ensures
        submit_steps(steps, replies, n) == submit_steps(steps, replies, k),
    decreases n,
{
    if k < n {
        lemma_submit_stopped_stays(steps, replies, k, (n - 1) as nat);
    }
}

/// The run after `k` steps depends on the answers to those steps alone.
pub proof fn lemma_submit_reads_prefix(
    steps: Seq<ExecutionStepView>,
    first: Seq<SubmitReplyView>,
    second: Seq<SubmitReplyView>,
    k: nat,
)
    requires
        forall|i: int| 0 <= i < k ==> first[i] == second[i],
    ensures
        submit_steps(steps, first, k) == submit_steps(steps, second, k),
    decreases k,
{
    if k > 0 {
        lemma_submit_reads_prefix(steps, first, second, (k - 1) as nat);
    }
}

/// Where step `k` fails, the execution ends there: what the steps before it
/// brought stays in the result, the failed bookmark is that of step `k`,
/// and no later step has any effect.
pub proof fn lemma_submit_failure_stops(
    steps: Seq<ExecutionStepView>,
    replies: Seq<SubmitReplyView>,
    k: nat,
)
    requires
        k < steps.len(),
        !submit_steps(steps, replies, k).stopped,
        steps[k as int] is Push ==> replies[k as int].push is Failed,
        !(steps[k as int] is Push) ==> replies[k as int].pr is Failed,
    ensures
        submission_result(steps, replies).pushed_bookmarks == submit_steps(
            steps,
            replies,
            k,
        ).result.pushed_bookmarks,
        submission_result(steps, replies).created_prs == submit_steps(
            steps,
            replies,
            k,
        ).result.created_prs,
        submission_result(steps, replies).updated_prs == submit_steps(
            steps,
            replies,
            k,
        ).result.updated_prs,
        submission_result(steps, replies).failed_bookmark == Some(steps[k as int].bookmark_name()),
{
    assert(submit_steps(steps, replies, k + 1).stopped);
    lemma_submit_stopped_stays(steps, replies, k + 1, steps.len());
}

/// A submission in progress.
#[derive(Debug)]
pub struct SubmissionExecution {
    /// What has happened so far
    pub result: SubmissionResult,
    /// The index of the step that is next
    pub position: usize,
    /// Whether the execution has stopped before the end of the plan
    pub stopped: bool,
}

impl SubmissionExecution {
    /// The result so far and whether the run has stopped.
    pub open spec fn run(&self) -> SubmitRunView {
        SubmitRunView { result: self.result@, stopped: self.stopped }
    }

    /// Whether the execution waits for the answer to the step at its
    /// position.
    pub open spec fn waits(&self, steps: Seq<ExecutionStepView>) -> bool {
        !self.stopped && self.position < steps.len()
    }

    /// An execution that has run no step yet.
    pub fn new() -> (r: Self)
        ensures
            r.run() == initial_submit_run(),
            r.position == 0,
    {
        SubmissionExecution { result: SubmissionResult::default(), position: 0, stopped: false }
    }

    /// The step that is to be carried out next, or `None` where the
    /// execution is over.
    pub fn current_step<'a>(&self, plan: &'a SubmissionPlan) -> (r: Option<&'a ExecutionStep>)
        ensures
            match r {
                Some(step) => self.waits(plan@.execution_steps) && step@
                    == plan@.execution_steps[self.position as int],
                None => !self.waits(plan@.execution_steps),
            },
    {
        if !self.stopped && self.position < plan.execution_steps.len() {
            proof {
                lemma_deep_view_index(plan.execution_steps, self.position as int);
            }
            Some(&plan.execution_steps[self.position])
        } else {
            None
        }
    }

    /// Records the failure of the current step.
    fn fail(&mut self, bookmark: &String, error: Error)
        requires
            old(self).position < usize::MAX,
        ensures
            final(self).run() == failed_submit_run(old(self).run(), bookmark@, error@.message()),
            final(self).position == old(self).position + 1,
    {
        self.result.failed_bookmark = Some(bookmark.clone());
        self.result.error_message = Some(error.message());
        self.stopped = true;
        self.position = self.position + 1;
    }

    /// Takes the workspace's answer to the push that is the current step.
    /// Where the current step is no push, nothing changes.
    pub fn record_push(&mut self, plan: &SubmissionPlan, reply: Result<(), Error>)
        ensures
            old(self).waits(plan@.execution_steps)
                && plan@.execution_steps[old(self).position as int] is Push ==> {
                &&& final(self).position == old(self).position + 1
                &&& final(self).run() == after_submit_step(
                    old(self).run(),
                    plan@.execution_steps[old(self).position as int],
                    SubmitReplyView { push: push_reply(reply), pr: no_pr_reply() },
                )
            },
            !(old(self).waits(plan@.execution_steps)
                && plan@.execution_steps[old(self).position as int] is Push) ==> {
                &&& final(self).position == old(self).position
                &&& final(self).run() == old(self).run()
            },
    {
        if self.stopped || self.position >= plan.execution_steps.len() {
            return ;
        }
        proof {
            lemma_deep_view_index(plan.execution_steps, self.position as int);
        }
        match &plan.execution_steps[self.position] {
            ExecutionStep::Push(bookmark) => {
                match reply {
                    Ok(_) => {
                        let ghost before = self.result.pushed_bookmarks;
                        let name = bookmark.name.clone();
                        self.result.pushed_bookmarks.push(name);
                        self.position = self.position + 1;
                        proof {
                            lemma_deep_view_push(before, self.result.pushed_bookmarks, name);
                        }
                    },
                    Err(e) => {
                        self.fail(&bookmark.name, e);
                    },
                }
            },
            _ => {},
        }
    }

    /// Takes the platform's answer to the creation or the change of base
    /// that is the current step. Where the current step is a push, nothing
    /// changes.
    pub fn record_pr(&mut self, plan: &SubmissionPlan, reply: Result<PullRequest, Error>)
        ensures
            old(self).waits(plan@.execution_steps) && !(plan@.execution_steps[old(
                self,
            ).position as int] is Push) ==> {
                &&& final(self).position == old(self).position + 1
                &&& final(self).run() == after_submit_step(
                    old(self).run(),
                    plan@.execution_steps[old(self).position as int],
                    SubmitReplyView { push: PushReplyView::Done, pr: pr_reply(reply) },
                )
            },
            !(old(self).waits(plan@.execution_steps) && !(plan@.execution_steps[old(
                self,
            ).position as int] is Push)) ==> {
                &&& final(self).position == old(self).position
                &&& final(self).run() == old(self).run()
            },
    {
        if self.stopped || self.position >= plan.execution_steps.len() {
            return ;
        }
        proof {
            lemma_deep_view_index(plan.execution_steps, self.position as int);
        }
        match &plan.execution_steps[self.position] {
            ExecutionStep::Push(_) => {},
            ExecutionStep::CreatePr(create) => {
                match reply {
                    Ok(pr) => {
                        let ghost before = self.result.created_prs;
                        self.result.created_prs.push(pr);
                        self.position = self.position + 1;
                        proof {
                            lemma_deep_view_push(before, self.result.created_prs, pr);
                        }
                    },
                    Err(e) => {
                        self.fail(&create.bookmark.name, e);
                    },
                }
            },
            ExecutionStep::UpdateBase(update) => {
                match reply {
                    Ok(pr) => {
                        let ghost before = self.result.updated_prs;
                        self.result.updated_prs.push(pr);
                        self.position = self.position + 1;
                        proof {
                            lemma_deep_view_push(before, self.result.updated_prs, pr);
                        }
                    },
                    Err(e) => {
                        self.fail(&update.bookmark.name, e);
                    },
                }
            },
        }
    }

    /// The result of the execution.
    pub fn into_result(self) -> (r: SubmissionResult)
        ensures
            r@ == self.run().result,
    {
        self.result
    }
}

/// Whether `reply` is what was answered to the call that `step` asks for.
///
/// A push is a call of the workspace with the bookmark's name and the
/// remote. A creation is a call of the platform with the bookmark as head,
/// the planned base, title and draft flag, and no body. A change of base
/// is a call of the platform with the number of the PR and the expected
/// base.
pub open spec fn submit_step_answered<W: Workspace, P: PlatformService>(
    platform: &P,
    remote: Seq<char>,
    step: ExecutionStepView,
    reply: SubmitReplyView,
) -> bool {
    match step {
        ExecutionStepView::Push(bookmark) => exists|
            workspace: &mut W,
            name: &str,
            target: &str,
            answer: Result<(), Error>,
        | #[trigger]
            call_ensures(W::git_push, (workspace, name, target), answer) && name@ == bookmark.name
                && target@ == remote && reply.push == push_reply(answer),
        ExecutionStepView::CreatePr(create) => exists|
            head: &str,
            base: &str,
            title: &str,
            answer: Result<PullRequest, Error>,
        | #[trigger]
            call_ensures(
                P::create_pr_with_options,
                (platform, head, base, title, None::<&str>, create.draft),
                answer,
            ) && head@ == create.bookmark.name && base@ == create.base_branch && title@
                == create.title && reply.pr == pr_reply(answer),
        ExecutionStepView::UpdateBase(update) => exists|
            base: &str,
            answer: Result<PullRequest, Error>,
        | #[trigger]
            call_ensures(P::update_pr_base, (platform, update.pr.number, base), answer) && base@
                == update.expected_base && reply.pr == pr_reply(answer),
    }
}

/// Whether each of the first `n` replies, as far as the run has not
/// stopped before its step, is what was answered to that step's call.
pub open spec fn submit_steps_answered<W: Workspace, P: PlatformService>(
    platform: &P,
    remote: Seq<char>,
    steps: Seq<ExecutionStepView>,
    replies: Seq<SubmitReplyView>,
    n: nat,
) -> bool {
    forall|i: int|
        0 <= i < n && !(#[trigger] submit_steps(steps, replies, i as nat)).stopped
            ==> submit_step_answered::<W, P>(platform, remote, steps[i], replies[i])
}

/// Replies that were answered stay so when replies for later steps are
/// put behind them.
pub proof fn lemma_submit_answered_prefix<W: Workspace, P: PlatformService>(
    platform: &P,
    remote: Seq<char>,
    steps: Seq<ExecutionStepView>,
    first: Seq<SubmitReplyView>,
    second: Seq<SubmitReplyView>,
    n: nat,
)
    requires
        submit_steps_answered::<W, P>(platform, remote, steps, first, n),
        forall|i: int| 0 <= i < n ==> first[i] == second[i],
    ensures
        submit_steps_answered::<W, P>(platform, remote, steps, second, n),
{
    assert forall|i: int|
        0 <= i < n && !(#[trigger] submit_steps(
            steps,
            second,
            i as nat,
        )).stopped implies submit_step_answered::<W, P>(platform, remote, steps[i], second[i]) by {
        lemma_submit_reads_prefix(steps, first, second, i as nat);
    }
}

/// Whether none of the steps is a push.
pub open spec fn no_push(steps: Seq<ExecutionStepView>) -> bool {
    forall|i: int| 0 <= i < steps.len() ==> !(#[trigger] steps[i] is Push)
}

/// Carries out a submission plan, step by step and in order.
///
/// A push goes to the workspace, with the bookmark's name and the plan's
/// remote. A creation goes to the platform with the bookmark as head, the
/// planned base, title and draft flag, and no body. A change of base goes
/// to the platform with the number of the PR and the expected base. The
/// first call that fails ends the execution; what was applied before stays
/// applied and is reported.
///
/// The result is the one that [`submission_result`] gives for the plan's
/// steps and what was answered: up to where the run stops, each reply is
/// the answer to the call of its step. Only a push touches the workspace.
///
/// In a dry run no call is made, the workspace stays as it is, and nothing
/// is reported as done.
pub fn execute_submission<W: Workspace, P: PlatformService, R: ProgressCallback>(
    plan: &SubmissionPlan,
    workspace: &mut W,
    platform: &P,
    progress: &R,
    dry_run: bool,
) -> (r: SubmissionResult)
    ensures
        dry_run ==> r@ == nothing_submitted() && *final(workspace) == *old(workspace),
        !dry_run ==> exists|replies: Seq<SubmitReplyView>|
            replies.len() == plan@.execution_steps.len() && r@ == #[trigger] submission_result(
                plan@.execution_steps,
                replies,
            ) && submit_steps_answered::<W, P>(
                platform,
                plan@.remote,
                plan@.execution_steps,
                replies,
                plan@.execution_steps.len(),
            ),
        no_push(plan@.execution_steps) ==> *final(workspace) == *old(workspace),
{
    if dry_run {
        return SubmissionResult::default();
    }
    let ghost steps = plan@.execution_steps;
    let ghost remote = plan@.remote;
    let mut run = SubmissionExecution::new();
    let ghost mut replies: Seq<SubmitReplyView> = Seq::empty();
    while !run.stopped && run.position < plan.execution_steps.len()
        invariant
            steps == plan@.execution_steps,
            remote == plan@.remote,
            steps.len() == plan.execution_steps@.len(),
            run.position <= steps.len(),
            replies.len() == run.position,
            run.run() == submit_steps(steps, replies, run.position as nat),
            submit_steps_answered::<W, P>(platform, remote, steps, replies, run.position as nat),
            no_push(steps) ==> *workspace == *old(workspace),
        decreases steps.len() - run.position,
    {
        let ghost before = replies;
        let ghost at = run.position as nat;
        let step = &plan.execution_steps[run.position];
        proof {
            lemma_deep_view_index(plan.execution_steps, run.position as int);
        }
        let announcement = step.describe();
        progress.on_message(announcement.as_str());
        match step {
            ExecutionStep::Push(bookmark) => {
                let name = bookmark.name.as_str();
                let target = plan.remote.as_str();
                let reply = workspace.git_push(name, target);
                proof {
                    replies = replies.push(
                        SubmitReplyView { push: push_reply(reply), pr: no_pr_reply() },
                    );
                    assert(steps[at as int] is Push);
                    assert(submit_step_answered::<W, P>(
                        platform,
                        remote,
                        steps[at as int],
                        replies[at as int],
                    ));
                }
                run.record_push(plan, reply);
            },
            ExecutionStep::CreatePr(create) => {
                let head = create.bookmark.name.as_str();
                let base = create.base_branch.as_str();
                let title = create.title.as_str();
                let reply = platform.create_pr_with_options(head, base, title, None, create.draft);
                proof {
                    replies = replies.push(
                        SubmitReplyView { push: PushReplyView::Done, pr: pr_reply(reply) },
                    );
                    assert(call_ensures(
                        P::create_pr_with_options,
                        (platform, head, base, title, None::<&str>, create.draft),
                        reply,
                    ));
                    assert(submit_step_answered::<W, P>(
                        platform,
                        remote,
                        steps[at as int],
                        replies[at as int],
                    ));
                }
                run.record_pr(plan, reply);
            },
            ExecutionStep::UpdateBase(update) => {
                let base = update.expected_base.as_str();
                let reply = platform.update_pr_base(update.pr.number, base);
                proof {
                    replies = replies.push(
                        SubmitReplyView { push: PushReplyView::Done, pr: pr_reply(reply) },
                    );
                    assert(call_ensures(P::update_pr_base, (platform, update.pr.number, base), reply));
                    assert(submit_step_answered::<W, P>(
                        platform,
                        remote,
                        steps[at as int],
                        replies[at as int],
                    ));
                }
                run.record_pr(plan, reply);
            },
        }
        proof {
            lemma_submit_reads_prefix(steps, before, replies, at);
            lemma_submit_answered_prefix::<W, P>(platform, remote, steps, before, replies, at);
            assert(submit_steps_answered::<W, P>(platform, remote, steps, replies, at + 1));
        }
    }
    proof {
        let filler = SubmitReplyView { push: PushReplyView::Done, pr: no_pr_reply() };
        let all = replies + Seq::new((steps.len() - replies.len()) as nat, |i: int| filler);
        let n = run.position as nat;
        lemma_submit_reads_prefix(steps, replies, all, n);
        lemma_submit_answered_prefix::<W, P>(platform, remote, steps, replies, all, n);
        if run.stopped {
            lemma_submit_stopped_stays(steps, all, n, steps.len());
            assert forall|i: int| n <= i < steps.len() implies (#[trigger] submit_steps(
                steps,
                all,
                i as nat,
            )).stopped by {
                lemma_submit_stopped_stays(steps, all, n, i as nat);
            }
        }
        assert(run.run().result == submission_result(steps, all));
        assert(submit_steps_answered::<W, P>(platform, remote, steps, all, steps.len()));
    }
    run.into_result()
}

/// Whether a comment body is that of a stack comment: it begins with the
/// opening of the data block.
pub open spec fn is_stack_comment(body: Seq<char>) -> bool {
    COMMENT_DATA_PREFIX@.is_prefix_of(body)
}

/// The id of the first stack comment among `comments`, if there is one.
pub open spec fn first_stack_comment(comments: Seq<PrCommentView>) -> Option<u64>
    decreases comments.len(),
{
    if comments.len() == 0 {
        None
    } else if is_stack_comment(comments[0].body) {
        Some(comments[0].id)
    } else {
        first_stack_comment(comments.drop_first())
    }
}

/// Finds the stack comment among the comments of a PR.
pub fn find_stack_comment(comments: &Vec<PrComment>) -> (r: Option<u64>)
    ensures
        r == first_stack_comment(comments.deep_view()),
{
    let ghost all = comments.deep_view();
    let mut i: usize = 0;
    proof {
        assert(all.skip(0) =~= all);
    }
    while i < comments.len()
        invariant
            all == comments.deep_view(),
            i <= comments@.len(),
            first_stack_comment(all) == first_stack_comment(all.skip(i as int)),
        decreases comments@.len() - i,
    {
        proof {
            lemma_deep_view_index(*comments, i as int);
            assert(all.skip(i as int)[0] == comments@[i as int]@);
            assert(all.skip(i as int).drop_first() =~= all.skip(i + 1));
        }
        if starts_with(comments[i].body.as_str(), COMMENT_DATA_PREFIX) {
            return Some(comments[i].id);
        }
        i += 1;
    }
    proof {
        assert(all.skip(i as int).len() == 0);
    }
    None
}

/// The PRs of the plan's bookmarks after an execution: for each bookmark
/// of the first `k` segments the PR that existed before, and over that the
/// first `c` PRs that were created and the first `u` that were updated,
/// each under the name of its head.
pub open spec fn prs_after(
    plan: SubmissionPlanView,
    result: SubmissionResultView,
    k: nat,
    c: nat,
    u: nat,
) -> Map<Seq<char>, PullRequestView>
    decreases k + c + u,
{
    if u > 0 {
        let pr = result.updated_prs[u - 1];
        prs_after(plan, result, k, c, (u - 1) as nat).insert(pr.head_ref, pr)
    } else if c > 0 {
        let pr = result.created_prs[c - 1];
        prs_after(plan, result, k, (c - 1) as nat, 0).insert(pr.head_ref, pr)
    } else if k > 0 {
        let before = prs_after(plan, result, (k - 1) as nat, 0, 0);
        let name = plan.segments[k - 1].bookmark.name;
        if plan.existing_prs.contains_key(name) {
            before.insert(name, plan.existing_prs[name])
        } else {
            before
        }
    } else {
        Map::empty()
    }
}

/// Collects the PRs of the plan's bookmarks after an execution: those that
/// existed, and over them those that were created and updated.
pub fn collect_prs(plan: &SubmissionPlan, result: &SubmissionResult) -> (r: PullRequestMap)
    ensures
        pull_request_views(r@) == prs_after(
            plan@,
            result@,
            plan@.segments.len(),
            result@.created_prs.len(),
            result@.updated_prs.len(),
        ),
{
    let mut prs: PullRequestMap = StringHashMap::new();
    proof {
        assert(pull_request_views(prs@) =~= prs_after(plan@, result@, 0, 0, 0));
    }
    let mut k: usize = 0;
    while k < plan.segments.len()
        invariant
            k <= plan.segments@.len(),
            pull_request_views(prs@) == prs_after(plan@, result@, k as nat, 0, 0),
        decreases plan.segments@.len() - k,
    {
        let name = &plan.segments[k].bookmark.name;
        proof {
            lemma_deep_view_index(plan.segments, k as int);
        }
        match plan.existing_prs.get(name.as_str()) {
            Some(pr) => {
                let ghost before = prs@;
                prs.insert(name.clone(), pr.clone());
                proof {
                    assert(plan@.existing_prs[name@] == pr@);
                    assert(pull_request_views(prs@) =~= pull_request_views(before).insert(
                        name@,
                        pr@,
                    ));
                }
            },
            None => {},
        }
        k += 1;
    }
    let mut c: usize = 0;
    while c < result.created_prs.len()
        invariant
            k == plan@.segments.len(),
            c <= result.created_prs@.len(),
            pull_request_views(prs@) == prs_after(plan@, result@, k as nat, c as nat, 0),
        decreases result.created_prs@.len() - c,
    {
        let pr = &result.created_prs[c];
        let ghost before = prs@;
        proof {
            lemma_deep_view_index(result.created_prs, c as int);
        }
        prs.insert(pr.head_ref.clone(), pr.clone());
        proof {
            assert(pull_request_views(prs@) =~= pull_request_views(before).insert(
                pr@.head_ref,
                pr@,
            ));
        }
        c += 1;
    }
    let mut u: usize = 0;
    while u < result.updated_prs.len()
        invariant
            k == plan@.segments.len(),
            c == result@.created_prs.len(),
            u <= result.updated_prs@.len(),
            pull_request_views(prs@) == prs_after(plan@, result@, k as nat, c as nat, u as nat),
        decreases result.updated_prs@.len() - u,
    {
        let pr = &result.updated_prs[u];
        let ghost before = prs@;
        proof {
            lemma_deep_view_index(result.updated_prs, u as int);
        }
        prs.insert(pr.head_ref.clone(), pr.clone());
        proof {
            assert(pull_request_views(prs@) =~= pull_request_views(before).insert(
                pr@.head_ref,
                pr@,
            ));
        }
        u += 1;
    }
    prs
}

/// What is to be done on a PR to put the stack comment there.
#[derive(Debug, PartialEq, Eq)]
pub enum CommentAction {
    /// Create a comment with this body on the PR
    Create { pr_number: u64, body: String },
    /// Rewrite the comment with this id on the PR to this body
    Update { pr_number: u64, comment_id: u64, body: String },
}

/// What a [`CommentAction`] holds, as plain values.
pub enum CommentActionView {
    Create { pr_number: u64, body: Seq<char> },
    Update { pr_number: u64, comment_id: u64, body: Seq<char> },
}

impl View for CommentAction {
    type V = CommentActionView;

    open spec fn view(&self) -> CommentActionView {
        match self {
            CommentAction::Create { pr_number, body } => CommentActionView::Create {
                pr_number: *pr_number,
                body: body@,
            },
            CommentAction::Update { pr_number, comment_id, body } => CommentActionView::Update {
                pr_number: *pr_number,
                comment_id: *comment_id,
                body: body@,
            },
        }
    }
}

/// What is to be done on the PR at `index` of the stack, given the
/// comments that the PR has: the stack comment that is there is rewritten,
/// and where there is none, one is created. The body is that of the stack
/// comment for this PR.
pub open spec fn comment_action_of(
    data: StackCommentDataView,
    index: int,
    comments: Seq<PrCommentView>,
) -> CommentActionView {
    let pr_number = data.stack[index].pr_number;
    let body = comment_body(data, index);
    match first_stack_comment(comments) {
        Some(comment_id) => CommentActionView::Update { pr_number, comment_id, body },
        None => CommentActionView::Create { pr_number, body },
    }
}

/// Decides what is to be done on the PR at `index` of the stack.
pub fn comment_action(data: &StackCommentData, index: usize, comments: &Vec<PrComment>) -> (r:
    CommentAction)
    requires
        index < data.stack@.len(),
    ensures
        r@ == comment_action_of(data@, index as int, comments.deep_view()),
{
    proof {
        lemma_deep_view_index(data.stack, index as int);
    }
    let pr_number = data.stack[index].pr_number;
    let body = match format_stack_comment(data, index) {
        Ok(body) => body,
        Err(_) => String::new(),
    };
    match find_stack_comment(comments) {
        Some(comment_id) => CommentAction::Update { pr_number, comment_id, body },
        None => CommentAction::Create { pr_number, body },
    }
}

/// Whether `outcome` is an answer of `platform` to the call that carries
/// out `action`: the creation of a comment with the action's body on the
/// action's PR, or the rewriting of the action's comment to that body.
pub open spec fn action_answered<P: PlatformService>(
    platform: &P,
    action: CommentActionView,
    outcome: Result<(), Error>,
) -> bool {
    match action {
        CommentActionView::Create { pr_number, body } => exists|text: &str|
            #[trigger] text@ == body && call_ensures(
                P::create_pr_comment,
                (platform, pr_number, text),
                outcome,
            ),
        CommentActionView::Update { pr_number, comment_id, body } => exists|text: &str|
            #[trigger] text@ == body && call_ensures(
                P::update_pr_comment,
                (platform, pr_number, comment_id, text),
                outcome,
            ),
    }
}

/// Whether the comments of the PR at `index` were listed and the action
/// that [`comment_action_of`] decides from them got the answer `outcome`.
pub open spec fn comment_answered<P: PlatformService>(
    platform: &P,
    data: StackCommentDataView,
    index: int,
    outcome: Result<(), Error>,
) -> bool {
    exists|comments: Vec<PrComment>| #[trigger]
        call_ensures(
            P::list_pr_comments,
            (platform, data.stack[index].pr_number),
            Ok::<Vec<PrComment>, Error>(comments),
        ) && action_answered(
            platform,
            comment_action_of(data, index, comments.deep_view()),
            outcome,
        )
}

/// Whether the stack comment was put on the PR at `index`: its comments
/// were listed, and the action decided from them went through.
pub open spec fn comment_posted<P: PlatformService>(
    platform: &P,
    data: StackCommentDataView,
    index: int,
) -> bool {
    comment_answered(platform, data, index, Ok::<(), Error>(()))
}

/// Whether the work on the PR at `index` failed with `error`: the listing
/// of its comments failed so, or the action decided from them did.
pub open spec fn comment_failed<P: PlatformService>(
    platform: &P,
    data: StackCommentDataView,
    index: int,
    error: Error,
) -> bool {
    call_ensures(
        P::list_pr_comments,
        (platform, data.stack[index].pr_number),
        Err::<Vec<PrComment>, Error>(error),
    ) || comment_answered(platform, data, index, Err::<(), Error>(error))
}

/// Puts the stack comment on every PR of the stack, so that each PR lists
/// the others: for each PR, from trunk to leaf, the comments are listed
/// and what [`comment_action`] decides is done.
///
/// The result is `Ok` where that went through on every PR of the stack. The
/// first call that fails ends the work with its error: the PRs below that
/// one have their comment, the ones above were not touched. A stack without
/// PRs asks nothing of the platform.
pub fn post_stack_comments<P: PlatformService>(data: &StackCommentData, platform: &P) -> (r:
    Result<(), Error>)
    ensures
        data@.stack.len() == 0 ==> r is Ok,
        r is Ok ==> forall|i: int|
            0 <= i < data@.stack.len() ==> #[trigger] comment_posted(platform, data@, i),
        r matches Err(e) ==> exists|k: int|
            0 <= k < data@.stack.len() && #[trigger] comment_failed(platform, data@, k, e)
                && forall|i: int| 0 <= i < k ==> #[trigger] comment_posted(platform, data@, i),
{
    let mut i: usize = 0;
    while i < data.stack.len()
        invariant
            i <= data.stack@.len(),
            forall|j: int| 0 <= j < i ==> #[trigger] comment_posted(platform, data@, j),
        decreases data.stack@.len() - i,
    {
        proof {
            lemma_deep_view_index(data.stack, i as int);
        }
        let listed = platform.list_pr_comments(data.stack[i].pr_number);
        let comments = match listed {
            Ok(comments) => comments,
            Err(e) => {
                proof {
                    assert(comment_failed(platform, data@, i as int, e));
                }
                return Err(e);
            },
        };
        let action = comment_action(data, i, &comments);
        let posted = match &action {
            CommentAction::Create { pr_number, body } => {
                let text = body.as_str();
                let posted = platform.create_pr_comment(*pr_number, text);
                proof {
                    assert(text@ == body@);
                    assert(action_answered(platform, action@, posted));
                }
                posted
            },
            CommentAction::Update { pr_number, comment_id, body } => {
                let text = body.as_str();
                let posted = platform.update_pr_comment(*pr_number, *comment_id, text);
                proof {
                    assert(text@ == body@);
                    assert(action_answered(platform, action@, posted));
                }
                posted
            },
        };
        proof {
            assert(comment_answered(platform, data@, i as int, posted));
        }
        match posted {
            Ok(done) => {
                proof {
                    assert(posted == Ok::<(), Error>(()));
                    assert(comment_posted(platform, data@, i as int));
                }
            },
            Err(e) => {
                proof {
                    assert(comment_failed(platform, data@, i as int, e));
                }
                return Err(e);
            },
        }
        i += 1;
    }
    Ok(())
}

} // verus!
