//! Merge execution: walking a merge plan against the platform.
//!
//! The decisions are in [`MergeExecution`], a state machine that is handed
//! each answer of the platform and says which step is next. The driver
//! [`execute_merge`] makes the calls one after the other.

use vstd::prelude::*;
use vstd::string::StringExecFns;
use crate::error::Error;
use crate::merge::plan::MergeConfidence;
use crate::merge::plan::MergePlan;
use crate::merge::plan::MergeStep;
use crate::merge::plan::MergeStepView;
use crate::merge::plan::PrInfoView;
use crate::merge::plan::blocker;
use crate::merge::plan::is_merge_step;
use crate::merge::plan::merge_plan;
use crate::merge::plan::merge_step;
use crate::merge::plan::merge_steps;
use crate::merge::plan::ready;
use crate::merge::plan::retarget_after;
use crate::merge::plan::skip_tail;
use crate::platform::PlatformService;
use crate::progress::ProgressCallback;
use crate::text::append_decimal;
use crate::text::append_joined;
use crate::text::decimal;
use crate::text::joined;
use crate::text::lemma_deep_view_index;
use crate::text::lemma_deep_view_push;
use crate::text::lemma_filter_keeps_all;
use crate::text::lemma_filter_keeps_none;
use crate::types::MergeResult;
use crate::types::MergeResultView;
use crate::types::PullRequest;
use crate::types::clone_strings;

verus! {

/// What the execution of a merge plan came to.
#[derive(Debug)]
pub struct MergeExecutionResult {
    /// Bookmarks whose PRs were merged
    pub merged_bookmarks: Vec<String>,
    /// Bookmark at which the execution failed (if any)
    pub failed_bookmark: Option<String>,
    /// Error message of the failure (if any)
    pub error_message: Option<String>,
    /// Whether the merge that failed had been planned as uncertain
    pub was_uncertain: bool,
}

/// What a [`MergeExecutionResult`] holds, as plain values.
pub struct MergeExecutionResultView {
    pub merged_bookmarks: Seq<Seq<char>>,
    pub failed_bookmark: Option<Seq<char>>,
    pub error_message: Option<Seq<char>>,
    pub was_uncertain: bool,
}

impl View for MergeExecutionResult {
    type V = MergeExecutionResultView;

    open spec fn view(&self) -> MergeExecutionResultView {
        MergeExecutionResultView {
            merged_bookmarks: self.merged_bookmarks.deep_view(),
            failed_bookmark: self.failed_bookmark.deep_view(),
            error_message: self.error_message.deep_view(),
            was_uncertain: self.was_uncertain,
        }
    }
}

/// The result before any step has run.
pub open spec fn empty_result() -> MergeExecutionResultView {
    MergeExecutionResultView {
        merged_bookmarks: Seq::empty(),
        failed_bookmark: None,
        error_message: None,
        was_uncertain: false,
    }
}

impl Default for MergeExecutionResult {
    fn default() -> (r: Self)
        ensures
            r@ == empty_result(),
    {
        let r = MergeExecutionResult {
            merged_bookmarks: Vec::new(),
            failed_bookmark: None,
            error_message: None,
            was_uncertain: false,
        };
        proof {
            assert(r@.merged_bookmarks =~= Seq::<Seq<char>>::empty());
        }
        r
    }
}

impl Clone for MergeExecutionResult {
    fn clone(&self) -> (r: Self)
        ensures
            r@ == self@,
    {
        MergeExecutionResult {
            merged_bookmarks: clone_strings(&self.merged_bookmarks),
            failed_bookmark: self.failed_bookmark.clone(),
            error_message: self.error_message.clone(),
            was_uncertain: self.was_uncertain,
        }
    }
}

impl MergeExecutionResult {
    /// Whether no step failed.
    pub fn is_success(&self) -> (r: bool)
        ensures
            r == (self@.failed_bookmark is None),
    {
        self.failed_bookmark.is_none()
    }

    /// Whether at least one PR was merged.
    pub fn has_merges(&self) -> (r: bool)
        ensures
            r == (self@.merged_bookmarks.len() > 0),
    {
        self.merged_bookmarks.len() > 0
    }

    /// Whether the bottom-most PR was merged, that is whether trunk changed.
    /// Merges run bottom-up, so this holds as soon as anything was merged.
    pub fn bottom_merged(&self) -> (r: bool)
        ensures
            r == (self@.merged_bookmarks.len() > 0),
    {
        self.merged_bookmarks.len() > 0
    }
}

/// What the platform answered to a merge.
pub enum MergeReplyView {
    /// The PR was merged
    Merged,
    /// The call came back, but the PR was not merged
    NotMerged(Option<Seq<char>>),
    /// The call failed, with this text
    Failed(Seq<char>),
}

/// What the platform answered to a change of base.
pub enum RetargetReplyView {
    /// The base was changed
    Done,
    /// The call failed, with this text
    Failed(Seq<char>),
}

/// What the platform answers to a step, whichever call the step makes.
pub struct StepReplyView {
    pub merge: MergeReplyView,
    pub retarget: RetargetReplyView,
}

/// The answer to a merge, as the execution reads it.
pub open spec fn merge_reply(reply: Result<MergeResult, Error>) -> MergeReplyView {
    match reply {
        Ok(outcome) => if outcome.merged {
            MergeReplyView::Merged
        } else {
            MergeReplyView::NotMerged(outcome@.message)
        },
        Err(e) => MergeReplyView::Failed(e@.message()),
    }
}

/// The answer to a change of base, as the execution reads it.
pub open spec fn retarget_reply(reply: Result<PullRequest, Error>) -> RetargetReplyView {
    match reply {
        Ok(_) => RetargetReplyView::Done,
        Err(e) => RetargetReplyView::Failed(e@.message()),
    }
}

/// How far an execution has come: its result so far, and whether it has
/// stopped before the end of the plan.
pub struct RunView {
    pub result: MergeExecutionResultView,
    pub stopped: bool,
}

/// The run before any step.
pub open spec fn initial_run() -> RunView {
    RunView { result: empty_result(), stopped: false }
}

/// The run after a failure at `bookmark`. What was merged stays merged.
pub open spec fn failed_run(
    run: RunView,
    bookmark: Seq<char>,
    message: Option<Seq<char>>,
    uncertain: bool,
) -> RunView {
    RunView {
        result: MergeExecutionResultView {
            merged_bookmarks: run.result.merged_bookmarks,
            failed_bookmark: Some(bookmark),
            error_message: message,
            was_uncertain: uncertain,
        },
        stopped: true,
    }
}

/// The text that tells a failed change of base from a failed merge.
pub open spec fn retarget_failure(text: Seq<char>) -> Seq<char> {
    "Retarget failed: "@ + text
}

/// The run after one step that got the answer `reply`.
///
/// A merge that went through adds its bookmark to the merged ones. A merge
/// that did not, or failed, stops the run; it is marked uncertain exactly
/// when the step was planned so. A failed change of base stops the run and
/// is never marked uncertain. A skip stops the run without a failure.
pub open spec fn after_step(run: RunView, step: MergeStepView, reply: StepReplyView) -> RunView {
    match step {
        MergeStepView::Merge { bookmark, confidence, .. } => match reply.merge {
            MergeReplyView::Merged => RunView {
                result: MergeExecutionResultView {
                    merged_bookmarks: run.result.merged_bookmarks.push(bookmark),
                    ..run.result
                },
                stopped: false,
            },
            MergeReplyView::NotMerged(message) => failed_run(
                run,
                bookmark,
                message,
                confidence is Uncertain,
            ),
            MergeReplyView::Failed(text) => failed_run(
                run,
                bookmark,
                Some(text),
                confidence is Uncertain,
            ),
        },
        MergeStepView::RetargetBase { bookmark, .. } => match reply.retarget {
            RetargetReplyView::Done => run,
            RetargetReplyView::Failed(text) => failed_run(
                run,
                bookmark,
                Some(retarget_failure(text)),
                false,
            ),
        },
        MergeStepView::Skip { .. } => RunView { result: run.result, stopped: true },
    }
}

/// The run after the first `k` steps, where `replies[i]` is what the
/// platform answers to step `i`. Once the run has stopped, no further step
/// changes it.
pub open spec fn run_steps(steps: Seq<MergeStepView>, replies: Seq<StepReplyView>, k: nat) -> RunView
    decreases k,
{
    if k == 0 {
        initial_run()
    } else {
        let before = run_steps(steps, replies, (k - 1) as nat);
        if before.stopped {
            before
        } else {
            after_step(before, steps[k - 1], replies[k - 1])
        }
    }
}

/// What the execution of `steps` comes to under the given answers.
pub open spec fn execution_result(
    steps: Seq<MergeStepView>,
    replies: Seq<StepReplyView>,
) -> MergeExecutionResultView {
    run_steps(steps, replies, steps.len()).result
}

/// A run that has stopped stays as it is.
pub proof fn lemma_stopped_stays(
    steps: Seq<MergeStepView>,
    replies: Seq<StepReplyView>,
    k: nat,
    n: nat,
)
    requires
        k <= n,
        run_steps(steps, replies, k).stopped,
    ensures
        run_steps(steps, replies, n) == run_steps(steps, replies, k),
    decreases n,
{
    if k < n {
        lemma_stopped_stays(steps, replies, k, (n - 1) as nat);
    }
}

/// The run after `k` steps depends on the answers to those steps alone.
pub proof fn lemma_run_reads_prefix(
    steps: Seq<MergeStepView>,
    first: Seq<StepReplyView>,
    second: Seq<StepReplyView>,
    k: nat,
)
    requires
        forall|i: int| 0 <= i < k ==> first[i] == second[i],
    ensures
        run_steps(steps, first, k) == run_steps(steps, second, k),
    decreases k,
{
    if k > 0 {
        lemma_run_reads_prefix(steps, first, second, (k - 1) as nat);
    }
}

/// An execution in progress.
#[derive(Debug)]
pub struct MergeExecution {
    /// What has happened so far
    pub result: MergeExecutionResult,
    /// The index of the step that is next
    pub position: usize,
    /// Whether the execution has stopped before the end of the plan
    pub stopped: bool,
}

impl MergeExecution {
    /// The result so far and whether the run has stopped.
    pub open spec fn run(&self) -> RunView {
        RunView { result: self.result@, stopped: self.stopped }
    }

    /// Whether the execution waits for the answer to the step at its
    /// position.
    pub open spec fn waits(&self, steps: Seq<MergeStepView>) -> bool {
        !self.stopped && self.position < steps.len()
    }

    /// An execution that has run no step yet.
    pub fn new() -> (r: Self)
        ensures
            r.run() == initial_run(),
            r.position == 0,
    {
        MergeExecution { result: MergeExecutionResult::default(), position: 0, stopped: false }
    }

    /// The step that is to be carried out next, or `None` where the
    /// execution is over.
    pub fn current_step<'a>(&self, plan: &'a MergePlan) -> (r: Option<&'a MergeStep>)
        ensures
            match r {
                Some(step) => self.waits(plan@.steps) && step@ == plan@.steps[self.position as int],
                None => !self.waits(plan@.steps),
            },
    {
        if !self.stopped && self.position < plan.steps.len() {
            proof {
                lemma_deep_view_index(plan.steps, self.position as int);
            }
            Some(&plan.steps[self.position])
        } else {
            None
        }
    }

    /// Records the failure of the current step.
    fn fail(&mut self, bookmark: &String, message: Option<String>, uncertain: bool)
        requires
            old(self).position < usize::MAX,
        ensures
            final(self).run() == failed_run(
                old(self).run(),
                bookmark@,
                message.deep_view(),
                uncertain,
            ),
            final(self).position == old(self).position + 1,
    {
        self.result.failed_bookmark = Some(bookmark.clone());
        self.result.error_message = message;
        self.result.was_uncertain = uncertain;
        self.stopped = true;
        self.position = self.position + 1;
    }

    /// Takes the platform's answer to the merge that is the current step.
    /// Where the current step is no merge, nothing changes.
    pub fn record_merge(&mut self, plan: &MergePlan, reply: Result<MergeResult, Error>)
        ensures
            old(self).waits(plan@.steps) && plan@.steps[old(self).position as int] is Merge ==> {
                &&& final(self).position == old(self).position + 1
                &&& final(self).run() == after_step(
                    old(self).run(),
                    plan@.steps[old(self).position as int],
                    StepReplyView { merge: merge_reply(reply), retarget: RetargetReplyView::Done },
                )
            },
            !(old(self).waits(plan@.steps) && plan@.steps[old(self).position as int] is Merge) ==> {
                &&& final(self).position == old(self).position
                &&& final(self).run() == old(self).run()
            },
    {
        if self.stopped || self.position >= plan.steps.len() {
            return ;
        }
        proof {
            lemma_deep_view_index(plan.steps, self.position as int);
        }
        match &plan.steps[self.position] {
            MergeStep::Merge { bookmark, confidence, .. } => {
                let uncertain = match confidence {
                    MergeConfidence::Certain => false,
                    MergeConfidence::Uncertain(_) => true,
                };
                match reply {
                    Ok(outcome) => {
                        if outcome.merged {
                            let ghost before = self.result.merged_bookmarks;
                            let name = bookmark.clone();
                            self.result.merged_bookmarks.push(name);
                            self.position = self.position + 1;
                            proof {
                                lemma_deep_view_push(before, self.result.merged_bookmarks, name);
                            }
                        } else {
                            self.fail(bookmark, outcome.message, uncertain);
                        }
                    },
                    Err(e) => {
                        self.fail(bookmark, Some(e.message()), uncertain);
                    },
                }
            },
            _ => {},
        }
    }

    /// Takes the platform's answer to the change of base that is the current
    /// step. Where the current step is no change of base, nothing changes.
    pub fn record_retarget(&mut self, plan: &MergePlan, reply: Result<PullRequest, Error>)
        ensures
            old(self).waits(plan@.steps) && plan@.steps[old(self).position as int]
                is RetargetBase ==> {
                &&& final(self).position == old(self).position + 1
                &&& final(self).run() == after_step(
                    old(self).run(),
                    plan@.steps[old(self).position as int],
                    StepReplyView {
                        merge: MergeReplyView::Merged,
                        retarget: retarget_reply(reply),
                    },
                )
            },
            !(old(self).waits(plan@.steps) && plan@.steps[old(self).position as int]
                is RetargetBase) ==> {
                &&& final(self).position == old(self).position
                &&& final(self).run() == old(self).run()
            },
    {
        if self.stopped || self.position >= plan.steps.len() {
            return ;
        }
        proof {
            lemma_deep_view_index(plan.steps, self.position as int);
        }
        match &plan.steps[self.position] {
            MergeStep::RetargetBase { bookmark, .. } => {
                match reply {
                    Ok(_) => {
                        self.position = self.position + 1;
                    },
                    Err(e) => {
                        let mut message = String::new();
                        message.append("Retarget failed: ");
                        message.append(e.message().as_str());
                        proof {
                            assert(message@ =~= retarget_failure(e@.message()));
                        }
                        self.fail(bookmark, Some(message), false);
                    },
                }
            },
            _ => {},
        }
    }

    /// Passes the skip that is the current step, which ends the execution.
    /// Where the current step is no skip, nothing changes.
    pub fn record_skip(&mut self, plan: &MergePlan)
        ensures
            old(self).waits(plan@.steps) && plan@.steps[old(self).position as int] is Skip ==> {
                &&& final(self).position == old(self).position + 1
                &&& final(self).run() == RunView { result: old(self).run().result, stopped: true }
            },
            !(old(self).waits(plan@.steps) && plan@.steps[old(self).position as int] is Skip) ==> {
                &&& final(self).position == old(self).position
                &&& final(self).run() == old(self).run()
            },
    {
        if self.stopped || self.position >= plan.steps.len() {
            return ;
        }
        proof {
            lemma_deep_view_index(plan.steps, self.position as int);
        }
        match &plan.steps[self.position] {
            MergeStep::Skip { .. } => {
                self.stopped = true;
                self.position = self.position + 1;
            },
            _ => {},
        }
    }

    /// The result of the execution.
    pub fn into_result(self) -> (r: MergeExecutionResult)
        ensures
            r@ == self.run().result,
    {
        self.result
    }
}

/// The message that announces a merge.
pub open spec fn merging_message(pr_number: u64, title: Seq<char>) -> Seq<char> {
    "🔀 Merging PR #"@ + decimal(pr_number as nat) + ": "@ + title
}

/// The message that confirms a merge.
pub open spec fn merged_message(sha: Option<Seq<char>>) -> Seq<char> {
    "✅ Merged: "@ + match sha {
        Some(value) => value,
        None => "(no sha)"@,
    }
}

/// The message that announces a change of base.
pub open spec fn retargeting_message(
    pr_number: u64,
    old_base: Seq<char>,
    new_base: Seq<char>,
) -> Seq<char> {
    "🔄 Retargeting PR #"@ + decimal(pr_number as nat) + ": "@ + old_base + " → "@ + new_base
}

/// The message that reports a skip.
pub open spec fn skipping_message(
    pr_number: u64,
    bookmark: Seq<char>,
    reasons: Seq<Seq<char>>,
) -> Seq<char> {
    "⏭️  Skipping PR #"@ + decimal(pr_number as nat) + " ("@ + bookmark + "): "@ + joined(
        reasons,
        ", "@,
    )
}

/// The status message that goes out before a step is carried out.
pub open spec fn step_message(step: MergeStepView) -> Seq<char> {
    match step {
        MergeStepView::Merge { pr_number, pr_title, .. } => merging_message(pr_number, pr_title),
        MergeStepView::RetargetBase { pr_number, old_base, new_base, .. } => retargeting_message(
            pr_number,
            old_base,
            new_base,
        ),
        MergeStepView::Skip { bookmark, pr_number, reasons } => skipping_message(
            pr_number,
            bookmark,
            reasons,
        ),
    }
}

/// The status message that goes out before `step` is carried out.
pub fn message_for_step(step: &MergeStep) -> (r: String)
    ensures
        r@ == step_message(step@),
{
    let mut out = String::new();
    match step {
        MergeStep::Merge { pr_number, pr_title, .. } => {
            out.append("🔀 Merging PR #");
            append_decimal(&mut out, *pr_number);
            out.append(": ");
            out.append(pr_title.as_str());
        },
        MergeStep::RetargetBase { pr_number, old_base, new_base, .. } => {
            out.append("🔄 Retargeting PR #");
            append_decimal(&mut out, *pr_number);
            out.append(": ");
            out.append(old_base.as_str());
            out.append(" → ");
            out.append(new_base.as_str());
        },
        MergeStep::Skip { bookmark, pr_number, reasons } => {
            out.append("⏭️  Skipping PR #");
            append_decimal(&mut out, *pr_number);
            out.append(" (");
            out.append(bookmark.as_str());
            out.append("): ");
            append_joined(&mut out, reasons, ", ");
        },
    }
    proof {
        assert(out@ =~= step_message(step@));
    }
    out
}

/// The status message that goes out after a merge went through.
pub fn message_for_merged(sha: &Option<String>) -> (r: String)
    ensures
        r@ == merged_message(sha.deep_view()),
{
    let mut out = String::new();
    out.append("✅ Merged: ");
    match sha {
        Some(value) => out.append(value.as_str()),
        None => out.append("(no sha)"),
    }
    proof {
        assert(out@ =~= merged_message(sha.deep_view()));
    }
    out
}

/// Whether `reply` is what `platform` answered to the call that `step`
/// asks for: for a merge, the merging of the step's PR with the step's
/// method; for a change of base, the update of the base of the step's PR to
/// the step's new base. A skip asks for no call.
pub open spec fn step_answered<P: PlatformService>(
    platform: &P,
    step: MergeStepView,
    reply: StepReplyView,
) -> bool {
    match step {
        MergeStepView::Merge { pr_number, method, .. } => exists|
            answer: Result<MergeResult, Error>,
        | #[trigger]
            call_ensures(P::merge_pr, (platform, pr_number, method), answer) && reply.merge
                == merge_reply(answer),
        MergeStepView::RetargetBase { pr_number, new_base, .. } => exists|
            text: &str,
            answer: Result<PullRequest, Error>,
        | #[trigger]
            call_ensures(P::update_pr_base, (platform, pr_number, text), answer) && text@
                == new_base && reply.retarget == retarget_reply(answer),
        MergeStepView::Skip { .. } => true,
    }
}

/// Whether each of the first `n` replies, as far as the run has not
/// stopped before its step, is what `platform` answered to that step's
/// call.
pub open spec fn steps_answered<P: PlatformService>(
    platform: &P,
    steps: Seq<MergeStepView>,
    replies: Seq<StepReplyView>,
    n: nat,
) -> bool {
    forall|i: int|
        0 <= i < n && !(#[trigger] run_steps(steps, replies, i as nat)).stopped ==> step_answered(
            platform,
            steps[i],
            replies[i],
        )
}

/// Replies that were answered stay so when replies for later steps are
/// put behind them.
pub proof fn lemma_steps_answered_prefix<P: PlatformService>(
    platform: &P,
    steps: Seq<MergeStepView>,
    first: Seq<StepReplyView>,
    second: Seq<StepReplyView>,
    n: nat,
)
    requires
        steps_answered(platform, steps, first, n),
        forall|i: int| 0 <= i < n ==> first[i] == second[i],
    ensures
        steps_answered(platform, steps, second, n),
{
    assert forall|i: int|
        0 <= i < n && !(#[trigger] run_steps(steps, second, i as nat)).stopped implies step_answered(
        platform,
        steps[i],
        second[i],
    ) by {
        lemma_run_reads_prefix(steps, first, second, i as nat);
    }
}

/// Carries out a merge plan against `platform`, step by step and in order.
///
/// Each merge and each change of base is one call, made with the PR number,
/// the method and the new base that the step holds. The execution stops at
/// the first merge that does not go through, at the first call that fails,
/// and at the first skip. What was merged before stays merged and is
/// reported. Nothing is tried twice.
///
/// The result is the one that [`execution_result`] gives for the plan's
/// steps and the answers that the platform gave: up to where the run
/// stops, each reply is the platform's answer to the call of its step.
pub fn execute_merge<P: PlatformService, R: ProgressCallback>(
    plan: &MergePlan,
    platform: &P,
    progress: &R,
) -> (r: MergeExecutionResult)
    ensures
        exists|replies: Seq<StepReplyView>|
            replies.len() == plan@.steps.len() && r@ == #[trigger] execution_result(
                plan@.steps,
                replies,
            ) && steps_answered(platform, plan@.steps, replies, plan@.steps.len()),
{
    let ghost steps = plan@.steps;
    let mut run = MergeExecution::new();
    let ghost mut replies: Seq<StepReplyView> = Seq::empty();
    while !run.stopped && run.position < plan.steps.len()
        invariant
            steps == plan@.steps,
            steps.len() == plan.steps@.len(),
            run.position <= steps.len(),
            replies.len() == run.position,
            run.run() == run_steps(steps, replies, run.position as nat),
            steps_answered(platform, steps, replies, run.position as nat),
        decreases steps.len() - run.position,
    {
        let ghost before = replies;
        let ghost at = run.position as nat;
        let step = &plan.steps[run.position];
        proof {
            lemma_deep_view_index(plan.steps, run.position as int);
        }
        let announcement = message_for_step(step);
        progress.on_message(announcement.as_str());
        match step {
            MergeStep::Merge { pr_number, method, .. } => {
                let reply = platform.merge_pr(*pr_number, *method);
                match &reply {
                    Ok(outcome) => {
                        if outcome.merged {
                            let confirmation = message_for_merged(&outcome.sha);
                            progress.on_message(confirmation.as_str());
                        }
                    },
                    Err(_) => {},
                }
                proof {
                    replies = replies.push(
                        StepReplyView {
                            merge: merge_reply(reply),
                            retarget: RetargetReplyView::Done,
                        },
                    );
                    assert(call_ensures(P::merge_pr, (platform, *pr_number, *method), reply));
                    assert(step_answered(platform, steps[at as int], replies[at as int]));
                }
                run.record_merge(plan, reply);
            },
            MergeStep::RetargetBase { pr_number, new_base, .. } => {
                let text = new_base.as_str();
                let reply = platform.update_pr_base(*pr_number, text);
                proof {
                    replies = replies.push(
                        StepReplyView {
                            merge: MergeReplyView::Merged,
                            retarget: retarget_reply(reply),
                        },
                    );
                    assert(call_ensures(P::update_pr_base, (platform, *pr_number, text), reply));
                    assert(step_answered(platform, steps[at as int], replies[at as int]));
                }
                run.record_retarget(plan, reply);
            },
            MergeStep::Skip { .. } => {
                proof {
                    replies = replies.push(
                        StepReplyView {
                            merge: MergeReplyView::Merged,
                            retarget: RetargetReplyView::Done,
                        },
                    );
                }
                run.record_skip(plan);
            },
        }
        proof {
            lemma_run_reads_prefix(steps, before, replies, at);
            lemma_steps_answered_prefix(platform, steps, before, replies, at);
            assert(steps_answered(platform, steps, replies, at + 1));
        }
    }
    proof {
        let filler = StepReplyView { merge: MergeReplyView::Merged, retarget: RetargetReplyView::Done };
        let all = replies + Seq::new((steps.len() - replies.len()) as nat, |i: int| filler);
        let n = run.position as nat;
        lemma_run_reads_prefix(steps, replies, all, n);
        lemma_steps_answered_prefix(platform, steps, replies, all, n);
        if run.stopped {
            lemma_stopped_stays(steps, all, n, steps.len());
            assert forall|i: int|
                n <= i < steps.len() implies (#[trigger] run_steps(steps, all, i as nat)).stopped by {
                lemma_stopped_stays(steps, all, n, i as nat);
            }
        }
        assert(run.run().result == execution_result(steps, all));
        assert(steps_answered(platform, steps, all, steps.len()));
    }
    run.into_result()
}

/// The bookmarks of the merge steps among `steps`, in order.
pub open spec fn merge_bookmarks(steps: Seq<MergeStepView>) -> Seq<Seq<char>> {
    steps.filter(is_merge_step()).map_values(|s: MergeStepView| s.bookmark_name())
}

/// While a run has not stopped, every merge so far went through and nothing
/// has failed: the merged bookmarks are those of the merge steps so far.
pub proof fn lemma_running(steps: Seq<MergeStepView>, replies: Seq<StepReplyView>, k: nat)
    requires
        k <= steps.len(),
        !run_steps(steps, replies, k).stopped,
    ensures
        run_steps(steps, replies, k).result.merged_bookmarks == merge_bookmarks(
            steps.take(k as int),
        ),
        run_steps(steps, replies, k).result.failed_bookmark is None,
        run_steps(steps, replies, k).result.error_message is None,
        !run_steps(steps, replies, k).result.was_uncertain,
    decreases k,
{
    reveal(Seq::filter);
    if k == 0 {
        assert(steps.take(0) =~= Seq::<MergeStepView>::empty());
        assert(merge_bookmarks(steps.take(0)) =~= Seq::<Seq<char>>::empty());
    } else {
        let before = run_steps(steps, replies, (k - 1) as nat);
        lemma_running(steps, replies, (k - 1) as nat);
        let step = steps[k - 1];
        assert(steps.take(k as int) =~= steps.take(k - 1).push(step));
        steps.take(k - 1).lemma_filter_push(step, is_merge_step());
        let merged_before = steps.take(k - 1).filter(is_merge_step());
        if step is Merge {
            assert(merge_bookmarks(steps.take(k as int)) =~= merge_bookmarks(steps.take(k - 1)).push(
                step.bookmark_name(),
            ));
        }
    }
}

/// Where the change of base of step `k` fails, the execution ends there:
/// the merged bookmarks are those of the merges before step `k`, the failed
/// bookmark is the one that was to be retargeted, the message tells that a
/// change of base failed, and the failure is not put down to uncertainty.
/// No step after `k` has any effect.
pub proof fn lemma_retarget_failure_stops(
    steps: Seq<MergeStepView>,
    replies: Seq<StepReplyView>,
    k: nat,
)
    requires
        k < steps.len(),
        steps[k as int] is RetargetBase,
        replies[k as int].retarget is Failed,
        !run_steps(steps, replies, k).stopped,
    ensures
        execution_result(steps, replies).merged_bookmarks == merge_bookmarks(steps.take(k as int)),
        execution_result(steps, replies).failed_bookmark == Some(steps[k as int].bookmark_name()),
        execution_result(steps, replies).error_message == Some(
            retarget_failure(replies[k as int].retarget->Failed_0),
        ),
        !execution_result(steps, replies).was_uncertain,
{
    lemma_running(steps, replies, k);
    assert(run_steps(steps, replies, k + 1).stopped);
    lemma_stopped_stays(steps, replies, k + 1, steps.len());
}

/// Where the merge of step `k` does not go through, the execution ends
/// there: the merged bookmarks are those of the merges before step `k`, the
/// failed bookmark is that of the step, and the failure is put down to
/// uncertainty exactly when the step was planned as uncertain.
pub proof fn lemma_merge_failure_stops(
    steps: Seq<MergeStepView>,
    replies: Seq<StepReplyView>,
    k: nat,
)
    requires
        k < steps.len(),
        steps[k as int] is Merge,
        !(replies[k as int].merge is Merged),
        !run_steps(steps, replies, k).stopped,
    ensures
        execution_result(steps, replies).merged_bookmarks == merge_bookmarks(steps.take(k as int)),
        execution_result(steps, replies).failed_bookmark == Some(steps[k as int].bookmark_name()),
        execution_result(steps, replies).was_uncertain == (steps[k as int]->Merge_confidence
            is Uncertain),
{
    lemma_running(steps, replies, k);
    assert(run_steps(steps, replies, k + 1).stopped);
    lemma_stopped_stays(steps, replies, k + 1, steps.len());
}

/// An execution that never stops merges every merge step of the plan.
pub proof fn lemma_all_merged(steps: Seq<MergeStepView>, replies: Seq<StepReplyView>)
    requires
        !run_steps(steps, replies, steps.len()).stopped,
    ensures
        execution_result(steps, replies).merged_bookmarks == merge_bookmarks(steps),
        execution_result(steps, replies).failed_bookmark is None,
{
    lemma_running(steps, replies, steps.len());
    assert(steps.take(steps.len() as int) =~= steps);
}

/// The bookmarks of the merge steps of a plan are the bookmarks that the
/// plan merges, in stack order.
pub proof fn lemma_merge_bookmarks_of_steps(
    ready: Seq<Seq<char>>,
    info: Map<Seq<char>, PrInfoView>,
    trunk: Seq<char>,
)
    ensures
        merge_bookmarks(merge_steps(ready, info, trunk)) == ready,
    decreases ready.len(),
{
    let pick = |s: MergeStepView| s.bookmark_name();
    if ready.len() == 0 {
        assert(merge_steps(ready, info, trunk).filter(is_merge_step()) =~= Seq::<
            MergeStepView,
        >::empty()) by {
            reveal(Seq::filter);
        }
        assert(merge_bookmarks(merge_steps(ready, info, trunk)) =~= ready);
    } else {
        let rest = ready.drop_first();
        let head = seq![merge_step(ready[0], info[ready[0]])];
        let retarget = retarget_after(rest, info, trunk);
        let tail = merge_steps(rest, info, trunk);
        lemma_merge_bookmarks_of_steps(rest, info, trunk);
        assert(head.filter(is_merge_step()) == head) by {
            lemma_filter_keeps_all(head, is_merge_step());
        }
        assert(retarget.filter(is_merge_step()) == Seq::<MergeStepView>::empty()) by {
            lemma_filter_keeps_none(retarget, is_merge_step());
        }
        assert((head + retarget + tail).filter(is_merge_step()) == head + tail.filter(
            is_merge_step(),
        )) by {
            Seq::filter_distributes_over_add(head, retarget, is_merge_step());
            Seq::filter_distributes_over_add(head + retarget, tail, is_merge_step());
            assert(head + Seq::<MergeStepView>::empty() + tail.filter(is_merge_step()) =~= head
                + tail.filter(is_merge_step()));
        }
        assert((head + tail.filter(is_merge_step())).map_values(pick) =~= seq![ready[0]]
            + tail.filter(is_merge_step()).map_values(pick));
        assert(seq![ready[0]] + rest =~= ready);
    }
}

/// While every merge goes through and every change of base is done, the
/// run of the steps that merge `ready` does not stop.
proof fn lemma_success_runs_on(
    ready: Seq<Seq<char>>,
    info: Map<Seq<char>, PrInfoView>,
    trunk: Seq<char>,
    steps: Seq<MergeStepView>,
    replies: Seq<StepReplyView>,
    k: nat,
)
    requires
        k <= merge_steps(ready, info, trunk).len(),
        merge_steps(ready, info, trunk).is_prefix_of(steps),
        forall|i: int|
            0 <= i < merge_steps(ready, info, trunk).len() ==> (#[trigger] replies[i]).merge
                is Merged && replies[i].retarget is Done,
    ensures
        !run_steps(steps, replies, k).stopped,
    decreases k,
{
    if k > 0 {
        lemma_success_runs_on(ready, info, trunk, steps, replies, (k - 1) as nat);
        lemma_merge_steps_kinds(ready, info, trunk);
        let planned = merge_steps(ready, info, trunk);
        assert(steps[k - 1] == planned[k - 1]) by {
            assert(planned =~= steps.subrange(0, planned.len() as int));
        }
        assert(replies[k - 1].merge is Merged);
    }
}

/// The steps that merge bookmarks hold no skip.
proof fn lemma_merge_steps_kinds(
    ready: Seq<Seq<char>>,
    info: Map<Seq<char>, PrInfoView>,
    trunk: Seq<char>,
)
    ensures
        forall|i: int|
            0 <= i < merge_steps(ready, info, trunk).len() ==> !(#[trigger] merge_steps(
                ready,
                info,
                trunk,
            )[i] is Skip),
    decreases ready.len(),
{
    if ready.len() > 0 {
        lemma_merge_steps_kinds(ready.drop_first(), info, trunk);
    }
}

/// Plan and execution fit together: where the platform merges every PR
/// that it is asked to merge and makes every change of base, the execution
/// of a merge plan merges exactly the bookmarks that the plan says will be
/// cleared, in stack order, and reports no failure.
pub proof fn lemma_plan_runs_clean(
    names: Seq<Seq<char>>,
    info: Map<Seq<char>, PrInfoView>,
    target: Option<Seq<char>>,
    trunk: Seq<char>,
    replies: Seq<StepReplyView>,
)
    requires
        forall|i: int|
            0 <= i < merge_plan(names, info, target, trunk).steps.len() ==> (
            #[trigger] replies[i]).merge is Merged && replies[i].retarget is Done,
    ensures
        execution_result(merge_plan(names, info, target, trunk).steps, replies).merged_bookmarks
            == merge_plan(names, info, target, trunk).bookmarks_to_clear,
        execution_result(merge_plan(names, info, target, trunk).steps, replies).failed_bookmark
            is None,
{
    let plan = merge_plan(names, info, target, trunk);
    let ready = ready(names, info, target);
    let planned = merge_steps(ready, info, trunk);
    let tail = skip_tail(blocker(names, info, target), info);
    let steps = plan.steps;
    let m = planned.len();
    assert(steps == planned + tail);
    assert(planned =~= steps.subrange(0, m as int));
    lemma_success_runs_on(ready, info, trunk, steps, replies, m);
    lemma_running(steps, replies, m);
    assert(steps.take(m as int) =~= planned);
    lemma_merge_bookmarks_of_steps(ready, info, trunk);
    if tail.len() == 0 {
        assert(steps =~= planned);
    } else {
        assert(steps.len() == m + 1);
        assert(steps[m as int] is Skip);
        assert(run_steps(steps, replies, m + 1).stopped);
    }
}

} // verus!
