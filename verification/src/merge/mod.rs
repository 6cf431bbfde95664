//! Merging a stack bottom-up, in three phases: gather what the platform
//! knows of the PRs, plan the merges, carry the plan out.

pub mod execute;
pub mod gather;
pub mod plan;

pub use execute::{execute_merge, MergeExecution, MergeExecutionResult};
pub use gather::fetch_all_pr_info;
pub use plan::{
    create_merge_plan, MergeConfidence, MergePlan, MergePlanOptions, MergeStep, PrInfo, PrInfoMap,
};
