//! The errors that planning and execution report.

use vstd::prelude::*;
use vstd::string::StringExecFns;

verus! {

/// What can go wrong.
#[derive(Debug)]
pub enum Error {
    /// The named bookmark is not in the stack
    BookmarkNotFound(String),
    /// There is no stack between trunk and the working copy
    NoStack,
    /// The named remote does not exist
    RemoteNotFound(String),
    /// No remote points at a supported platform
    NoSupportedRemotes,
    /// The GitHub API reported an error
    GitHubApi(String),
    /// The GitLab API reported an error
    GitLabApi(String),
    /// The platform reported an error
    Platform(String),
    /// Tracking state is missing or cannot be used
    Tracking(String),
    /// Something that should not happen
    Internal(String),
}

/// What an [`Error`] holds, as plain values.
pub enum ErrorView {
    BookmarkNotFound(Seq<char>),
    NoStack,
    RemoteNotFound(Seq<char>),
    NoSupportedRemotes,
    GitHubApi(Seq<char>),
    GitLabApi(Seq<char>),
    Platform(Seq<char>),
    Tracking(Seq<char>),
    Internal(Seq<char>),
}

impl ErrorView {
    /// The text that is shown for the error.
    pub open spec fn message(self) -> Seq<char> {
        match self {
            ErrorView::BookmarkNotFound(name) => "bookmark not found: "@ + name,
            ErrorView::NoStack => "no stack found between trunk and working copy"@,
            ErrorView::RemoteNotFound(name) => "remote not found: "@ + name,
            ErrorView::NoSupportedRemotes => "no supported remotes found (GitHub/GitLab)"@,
            ErrorView::GitHubApi(detail) => "GitHub API error: "@ + detail,
            ErrorView::GitLabApi(detail) => "GitLab API error: "@ + detail,
            ErrorView::Platform(detail) => "platform error: "@ + detail,
            ErrorView::Tracking(detail) => "tracking error: "@ + detail,
            ErrorView::Internal(detail) => "internal error: "@ + detail,
        }
    }
}

impl View for Error {
    type V = ErrorView;

    open spec fn view(&self) -> ErrorView {
        match self {
            Error::BookmarkNotFound(name) => ErrorView::BookmarkNotFound(name@),
            Error::NoStack => ErrorView::NoStack,
            Error::RemoteNotFound(name) => ErrorView::RemoteNotFound(name@),
            Error::NoSupportedRemotes => ErrorView::NoSupportedRemotes,
            Error::GitHubApi(detail) => ErrorView::GitHubApi(detail@),
            Error::GitLabApi(detail) => ErrorView::GitLabApi(detail@),
            Error::Platform(detail) => ErrorView::Platform(detail@),
            Error::Tracking(detail) => ErrorView::Tracking(detail@),
            Error::Internal(detail) => ErrorView::Internal(detail@),
        }
    }
}

impl DeepView for Error {
    type V = ErrorView;

    open spec fn deep_view(&self) -> ErrorView {
        self@
    }
}

/// `prefix` followed by `detail`.
fn prefixed(prefix: &str, detail: &String) -> (r: String)
    ensures
        r@ == prefix@ + detail@,
{
    let mut out = String::new();
    out.append(prefix);
    out.append(detail.as_str());
    proof {
        assert(out@ =~= prefix@ + detail@);
    }
    out
}

impl Error {
    /// The text that is shown for the error.
    pub fn message(&self) -> (r: String)
        ensures
            r@ == self@.message(),
    {
        match self {
            Error::BookmarkNotFound(name) => prefixed("bookmark not found: ", name),
            Error::NoStack => "no stack found between trunk and working copy".to_owned(),
            Error::RemoteNotFound(name) => prefixed("remote not found: ", name),
            Error::NoSupportedRemotes => "no supported remotes found (GitHub/GitLab)".to_owned(),
            Error::GitHubApi(detail) => prefixed("GitHub API error: ", detail),
            Error::GitLabApi(detail) => prefixed("GitLab API error: ", detail),
            Error::Platform(detail) => prefixed("platform error: ", detail),
            Error::Tracking(detail) => prefixed("tracking error: ", detail),
            Error::Internal(detail) => prefixed("internal error: ", detail),
        }
    }
}

impl Clone for Error {
    fn clone(&self) -> (r: Self)
        ensures
            r@ == self@,
    {
        match self {
            Error::BookmarkNotFound(name) => Error::BookmarkNotFound(name.clone()),
            Error::NoStack => Error::NoStack,
            Error::RemoteNotFound(name) => Error::RemoteNotFound(name.clone()),
            Error::NoSupportedRemotes => Error::NoSupportedRemotes,
            Error::GitHubApi(detail) => Error::GitHubApi(detail.clone()),
            Error::GitLabApi(detail) => Error::GitLabApi(detail.clone()),
            Error::Platform(detail) => Error::Platform(detail.clone()),
            Error::Tracking(detail) => Error::Tracking(detail.clone()),
            Error::Internal(detail) => Error::Internal(detail.clone()),
        }
    }
}

} // verus!
