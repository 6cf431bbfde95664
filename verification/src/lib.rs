//! Stack analysis, planning and merge execution for stacked pull requests.
//!
//! A stack is a linear chain of bookmarks between the trunk and the working
//! copy. The planners in this crate are pure: they take the stack and the
//! state already fetched from the code-hosting platform and return a plan.
//! The executors walk a plan and record what happened.

pub mod cli;
pub mod error;
pub mod graph;
pub mod merge;
pub mod platform;
pub mod progress;
pub mod repo;
pub mod submit;
pub mod text;
pub mod types;
pub mod workspace;
