//! Submission: analysing the stack, planning what to push, create and
//! update, and carrying the plan out.

pub mod analysis;
pub mod codec;
pub mod comment;
pub mod execute;
pub mod plan;

pub use crate::progress::{NoopProgress, ProgressCallback};
pub use analysis::{
    analyze_submission, generate_pr_title, get_base_branch, select_bookmark_for_segment,
    select_bookmark_with, SubmissionAnalysis, TemporaryPatterns,
};
pub use comment::{
    build_stack_comment_data, decode_stack_data, encode_stack_data, format_stack_comment,
    parse_stack_comment, StackCommentData, StackItem, COMMENT_DATA_POSTFIX, COMMENT_DATA_PREFIX,
    STACK_COMMENT_THIS_PR, STACK_COMMENT_VERSION,
};
pub use execute::{
    collect_prs, comment_action, execute_submission, find_stack_comment, post_stack_comments,
    CommentAction, SubmissionExecution, SubmissionResult,
};
pub use plan::{
    create_submission_plan, plan_submission, ExecutionConstraint, ExecutionStep, PrBaseUpdate,
    PrToCreate, SubmissionPlan,
};
