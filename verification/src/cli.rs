//! The options of the commands, and which bookmarks a command works on.

use vstd::prelude::*;
use crate::error::Error;
use crate::error::ErrorView;
use crate::submit::analysis::SubmissionAnalysis;
use crate::submit::analysis::SubmissionAnalysisView;
use crate::submit::analysis::is_tracked;

verus! {

/// Options for the merge command.
#[derive(Debug, Clone, Copy)]
pub struct MergeOptions {
    /// Show what would be merged without making changes
    pub dry_run: bool,
    /// Show the plan and ask before carrying it out
    pub confirm: bool,
}

impl Default for MergeOptions {
    fn default() -> (r: Self)
        ensures
            !r.dry_run,
            !r.confirm,
    {
        MergeOptions { dry_run: false, confirm: false }
    }
}

/// Options for the sync command.
#[derive(Debug, Clone, Copy)]
pub struct SyncOptions {
    /// Show what would be done without making changes
    pub dry_run: bool,
    /// Show the plan and ask before carrying it out
    pub confirm: bool,
    /// Sync every bookmark of the stack, whether it is followed or not
    pub all: bool,
}

impl Default for SyncOptions {
    fn default() -> (r: Self)
        ensures
            !r.dry_run,
            !r.confirm,
            !r.all,
    {
        SyncOptions { dry_run: false, confirm: false, all: false }
    }
}

/// What merge says where no bookmark is followed.
pub open spec fn nothing_followed() -> Seq<char> {
    "No bookmarks tracked. Run 'ryu track' first."@
}

/// What sync says where no bookmark is followed.
pub open spec fn nothing_followed_sync() -> Seq<char> {
    "No bookmarks tracked. Run 'ryu track' first, or use 'ryu sync --all' to sync all bookmarks."@
}

/// What sync says where the stack holds no followed bookmark.
pub open spec fn nothing_followed_in_stack() -> Seq<char> {
    "No tracked bookmarks in stack. Use 'ryu track' to track bookmarks, or 'ryu sync --all'."@
}

/// Merge works on followed bookmarks only: without any there is nothing
/// to do, which is an error.
pub fn require_followed(followed: &Vec<String>) -> (r: Result<(), Error>)
    ensures
        match r {
            Ok(_) => followed@.len() > 0,
            Err(e) => followed@.len() == 0 && e@ == ErrorView::Tracking(nothing_followed()),
        },
{
    if followed.len() == 0 {
        Err(Error::Tracking("No bookmarks tracked. Run 'ryu track' first.".to_owned()))
    } else {
        Ok(())
    }
}

/// Sync works on followed bookmarks, or on all of them where `all` is set:
/// without either there is nothing to do, which is an error.
pub fn require_followed_or_all(followed: &Vec<String>, all: bool) -> (r: Result<(), Error>)
    ensures
        match r {
            Ok(_) => all || followed@.len() > 0,
            Err(e) => !all && followed@.len() == 0 && e@ == ErrorView::Tracking(
                nothing_followed_sync(),
            ),
        },
{
    if followed.len() == 0 && !all {
        Err(
            Error::Tracking(
                "No bookmarks tracked. Run 'ryu track' first, or use 'ryu sync --all' to sync all bookmarks.".to_owned(),
            ),
        )
    } else {
        Ok(())
    }
}

/// The segments that sync works on: all of them where `all` is set, else
/// the followed ones; or the error where that leaves nothing.
pub open spec fn sync_scope_of(
    analysis: SubmissionAnalysisView,
    followed: Seq<Seq<char>>,
    all: bool,
) -> Result<SubmissionAnalysisView, ErrorView> {
    if all {
        Ok(analysis)
    } else if followed.len() == 0 {
        Err(ErrorView::Tracking(nothing_followed_sync()))
    } else if analysis.segments.filter(is_tracked(followed)).len() == 0 {
        Err(ErrorView::Tracking(nothing_followed_in_stack()))
    } else {
        Ok(
            SubmissionAnalysisView {
                target_bookmark: analysis.target_bookmark,
                segments: analysis.segments.filter(is_tracked(followed)),
            },
        )
    }
}

/// Narrows the analysis to what sync works on.
pub fn sync_scope(analysis: SubmissionAnalysis, followed: &Vec<String>, all: bool) -> (r: Result<
    SubmissionAnalysis,
    Error,
>)
    ensures
        match r {
            Ok(scoped) => sync_scope_of(analysis@, followed.deep_view(), all) == Ok::<
                SubmissionAnalysisView,
                ErrorView,
            >(scoped@),
            Err(e) => sync_scope_of(analysis@, followed.deep_view(), all) == Err::<
                SubmissionAnalysisView,
                ErrorView,
            >(e@),
        },
{
    match require_followed_or_all(followed, all) {
        Ok(_) => {},
        Err(e) => {
            return Err(e);
        },
    }
    if all {
        return Ok(analysis);
    }
    let mut scoped = analysis;
    scoped.retain_tracked(followed);
    if scoped.segments.len() == 0 {
        return Err(
            Error::Tracking(
                "No tracked bookmarks in stack. Use 'ryu track' to track bookmarks, or 'ryu sync --all'.".to_owned(),
            ),
        );
    }
    Ok(scoped)
}

} // verus!
