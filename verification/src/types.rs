//! Value types shared by the planners and executors, each with the
//! mathematical view that the contracts speak of.

use vstd::prelude::*;
use vstd::hash_map::StringHashMap;
use crate::text::contains_name;

verus! {

/// A named pointer to a commit.
#[derive(Debug, PartialEq, Eq)]
pub struct Bookmark {
    /// Bookmark name
    pub name: String,
    /// Git commit ID (hex)
    pub commit_id: String,
    /// Change ID (hex)
    pub change_id: String,
    /// Whether this bookmark exists on any remote
    pub has_remote: bool,
    /// Whether the remote pointer's commit matches the local one
    pub is_synced: bool,
}

/// What a [`Bookmark`] holds, as plain values.
pub struct BookmarkView {
    pub name: Seq<char>,
    pub commit_id: Seq<char>,
    pub change_id: Seq<char>,
    pub has_remote: bool,
    pub is_synced: bool,
}

impl View for Bookmark {
    type V = BookmarkView;

    open spec fn view(&self) -> BookmarkView {
        BookmarkView {
            name: self.name@,
            commit_id: self.commit_id@,
            change_id: self.change_id@,
            has_remote: self.has_remote,
            is_synced: self.is_synced,
        }
    }
}

impl DeepView for Bookmark {
    type V = BookmarkView;

    open spec fn deep_view(&self) -> BookmarkView {
        self@
    }
}

impl Clone for Bookmark {
    fn clone(&self) -> (r: Self)
        ensures
            r@ == self@,
    {
        Bookmark {
            name: self.name.clone(),
            commit_id: self.commit_id.clone(),
            change_id: self.change_id.clone(),
            has_remote: self.has_remote,
            is_synced: self.is_synced,
        }
    }
}

impl Bookmark {
    /// The bookmark `name` at the given commit, where `remote_commits` are
    /// the commits that its counterparts on the remotes point at: it has a
    /// remote where there is one, and is in sync where one of them points at
    /// the same commit.
    pub fn from_refs(
        name: String,
        commit_id: String,
        change_id: String,
        remote_commits: &Vec<String>,
    ) -> (r: Bookmark)
        ensures
            r@ == (BookmarkView {
                name: name@,
                commit_id: commit_id@,
                change_id: change_id@,
                has_remote: remote_commits@.len() > 0,
                is_synced: remote_commits.deep_view().contains(commit_id@),
            }),
    {
        let has_remote = remote_commits.len() > 0;
        let is_synced = contains_name(remote_commits, commit_id.as_str());
        Bookmark { name, commit_id, change_id, has_remote, is_synced }
    }
}

/// Copies a list of strings.
pub fn clone_strings(items: &Vec<String>) -> (r: Vec<String>)
    ensures
        r.deep_view() == items.deep_view(),
{
    let mut out: Vec<String> = Vec::new();
    let mut i: usize = 0;
    while i < items.len()
        invariant
            i <= items@.len(),
            out@.len() == i,
            forall|j: int| 0 <= j < i ==> out@[j]@ == items@[j]@,
        decreases items@.len() - i,
    {
        out.push(items[i].clone());
        i += 1;
    }
    assert(out.deep_view() =~= items.deep_view());
    out
}

/// An immutable commit record.
#[derive(Debug)]
pub struct LogEntry {
    /// Git commit ID (hex)
    pub commit_id: String,
    /// Change ID (hex)
    pub change_id: String,
    /// Author name
    pub author_name: String,
    /// Author email
    pub author_email: String,
    /// First line of the commit description
    pub description_first_line: String,
    /// Full commit description (includes the first line)
    pub description: String,
    /// Parent commit IDs
    pub parents: Vec<String>,
    /// Local bookmarks pointing to this commit
    pub local_bookmarks: Vec<String>,
    /// Remote bookmarks pointing to this commit (format: "name@remote")
    pub remote_bookmarks: Vec<String>,
    /// Whether this is the working copy commit
    pub is_working_copy: bool,
    /// When the commit was authored, in milliseconds since the Unix epoch
    pub authored_at: i64,
    /// When the commit was committed, in milliseconds since the Unix epoch
    pub committed_at: i64,
}

/// What a [`LogEntry`] holds, as plain values.
pub struct LogEntryView {
    pub commit_id: Seq<char>,
    pub change_id: Seq<char>,
    pub author_name: Seq<char>,
    pub author_email: Seq<char>,
    pub description_first_line: Seq<char>,
    pub description: Seq<char>,
    pub parents: Seq<Seq<char>>,
    pub local_bookmarks: Seq<Seq<char>>,
    pub remote_bookmarks: Seq<Seq<char>>,
    pub is_working_copy: bool,
    pub authored_at: i64,
    pub committed_at: i64,
}

impl View for LogEntry {
    type V = LogEntryView;

    open spec fn view(&self) -> LogEntryView {
        LogEntryView {
            commit_id: self.commit_id@,
            change_id: self.change_id@,
            author_name: self.author_name@,
            author_email: self.author_email@,
            description_first_line: self.description_first_line@,
            description: self.description@,
            parents: self.parents.deep_view(),
            local_bookmarks: self.local_bookmarks.deep_view(),
            remote_bookmarks: self.remote_bookmarks.deep_view(),
            is_working_copy: self.is_working_copy,
            authored_at: self.authored_at,
            committed_at: self.committed_at,
        }
    }
}

impl DeepView for LogEntry {
    type V = LogEntryView;

    open spec fn deep_view(&self) -> LogEntryView {
        self@
    }
}

impl Clone for LogEntry {
    fn clone(&self) -> (r: Self)
        ensures
            r@ == self@,
    {
        LogEntry {
            commit_id: self.commit_id.clone(),
            change_id: self.change_id.clone(),
            author_name: self.author_name.clone(),
            author_email: self.author_email.clone(),
            description_first_line: self.description_first_line.clone(),
            description: self.description.clone(),
            parents: clone_strings(&self.parents),
            local_bookmarks: clone_strings(&self.local_bookmarks),
            remote_bookmarks: clone_strings(&self.remote_bookmarks),
            is_working_copy: self.is_working_copy,
            authored_at: self.authored_at,
            committed_at: self.committed_at,
        }
    }
}

/// Copies a list of commit records.
pub fn clone_changes(items: &Vec<LogEntry>) -> (r: Vec<LogEntry>)
    ensures
        r.deep_view() == items.deep_view(),
{
    let mut out: Vec<LogEntry> = Vec::new();
    let mut i: usize = 0;
    while i < items.len()
        invariant
            i <= items@.len(),
            out@.len() == i,
            forall|j: int| 0 <= j < i ==> out@[j]@ == items@[j]@,
        decreases items@.len() - i,
    {
        out.push(items[i].clone());
        i += 1;
    }
    assert(out.deep_view() =~= items.deep_view());
    out
}

/// One rung of the stack: the bookmarks that point at the same tip, and the
/// changes unique to that rung, newest first.
#[derive(Debug)]
pub struct BookmarkSegment {
    /// Bookmarks pointing to the tip of this segment
    pub bookmarks: Vec<Bookmark>,
    /// Changes in this segment (newest first)
    pub changes: Vec<LogEntry>,
}

/// What a [`BookmarkSegment`] holds, as plain values.
pub struct BookmarkSegmentView {
    pub bookmarks: Seq<BookmarkView>,
    pub changes: Seq<LogEntryView>,
}

impl View for BookmarkSegment {
    type V = BookmarkSegmentView;

    open spec fn view(&self) -> BookmarkSegmentView {
        BookmarkSegmentView {
            bookmarks: self.bookmarks.deep_view(),
            changes: self.changes.deep_view(),
        }
    }
}

impl DeepView for BookmarkSegment {
    type V = BookmarkSegmentView;

    open spec fn deep_view(&self) -> BookmarkSegmentView {
        self@
    }
}

/// A segment reduced to the one bookmark that stands for it.
#[derive(Debug)]
pub struct NarrowedBookmarkSegment {
    /// The selected bookmark for this segment
    pub bookmark: Bookmark,
    /// Changes in this segment (newest first)
    pub changes: Vec<LogEntry>,
}

/// What a [`NarrowedBookmarkSegment`] holds, as plain values.
pub struct NarrowedBookmarkSegmentView {
    pub bookmark: BookmarkView,
    pub changes: Seq<LogEntryView>,
}

impl View for NarrowedBookmarkSegment {
    type V = NarrowedBookmarkSegmentView;

    open spec fn view(&self) -> NarrowedBookmarkSegmentView {
        NarrowedBookmarkSegmentView { bookmark: self.bookmark@, changes: self.changes.deep_view() }
    }
}

impl DeepView for NarrowedBookmarkSegment {
    type V = NarrowedBookmarkSegmentView;

    open spec fn deep_view(&self) -> NarrowedBookmarkSegmentView {
        self@
    }
}

impl Clone for NarrowedBookmarkSegment {
    fn clone(&self) -> (r: Self)
        ensures
            r@ == self@,
    {
        NarrowedBookmarkSegment {
            bookmark: self.bookmark.clone(),
            changes: clone_changes(&self.changes),
        }
    }
}

/// The segments of a stack, from the one next to trunk (index 0) to the leaf.
#[derive(Debug)]
pub struct BranchStack {
    /// Segments from trunk (index 0) to leaf (last index)
    pub segments: Vec<BookmarkSegment>,
}

/// What a [`BranchStack`] holds, as plain values.
pub struct BranchStackView {
    pub segments: Seq<BookmarkSegmentView>,
}

impl BranchStackView {
    /// A stack has at least one segment, and each segment at least one
    /// bookmark.
    pub open spec fn well_formed(self) -> bool {
        &&& self.segments.len() > 0
        &&& forall|i: int|
            0 <= i < self.segments.len() ==> (#[trigger] self.segments[i]).bookmarks.len() > 0
    }
}

impl View for BranchStack {
    type V = BranchStackView;

    open spec fn view(&self) -> BranchStackView {
        BranchStackView { segments: self.segments.deep_view() }
    }
}

impl DeepView for BranchStack {
    type V = BranchStackView;

    open spec fn deep_view(&self) -> BranchStackView {
        self@
    }
}

/// Bookmarks by name.
pub type BookmarkMap = StringHashMap<Bookmark>;

/// The linear stack between trunk and the working copy.
pub struct ChangeGraph {
    /// All bookmarks in the stack by name
    pub bookmarks: BookmarkMap,
    /// The stack from trunk to working copy (None if the working copy is at trunk)
    pub stack: Option<BranchStack>,
    /// Number of bookmarks left out because they sit on merge commits
    pub excluded_bookmark_count: usize,
}

impl Default for ChangeGraph {
    fn default() -> (r: Self)
        ensures
            r.bookmarks@ == Map::<Seq<char>, Bookmark>::empty(),
            r.stack is None,
            r.excluded_bookmark_count == 0,
    {
        ChangeGraph { bookmarks: StringHashMap::new(), stack: None, excluded_bookmark_count: 0 }
    }
}

/// A pull request (or merge request) as lookups, creation and updates
/// return it.
#[derive(Debug)]
pub struct PullRequest {
    /// PR/MR number
    pub number: u64,
    /// Web URL for the PR/MR
    pub html_url: String,
    /// Base branch name
    pub base_ref: String,
    /// Head branch name
    pub head_ref: String,
    /// PR/MR title
    pub title: String,
    /// GraphQL node ID (GitHub only, used for mutations)
    pub node_id: Option<String>,
    /// Whether the PR is a draft
    pub is_draft: bool,
}

/// What a [`PullRequest`] holds, as plain values.
pub struct PullRequestView {
    pub number: u64,
    pub html_url: Seq<char>,
    pub base_ref: Seq<char>,
    pub head_ref: Seq<char>,
    pub title: Seq<char>,
    pub node_id: Option<Seq<char>>,
    pub is_draft: bool,
}

impl View for PullRequest {
    type V = PullRequestView;

    open spec fn view(&self) -> PullRequestView {
        PullRequestView {
            number: self.number,
            html_url: self.html_url@,
            base_ref: self.base_ref@,
            head_ref: self.head_ref@,
            title: self.title@,
            node_id: self.node_id.deep_view(),
            is_draft: self.is_draft,
        }
    }
}

impl DeepView for PullRequest {
    type V = PullRequestView;

    open spec fn deep_view(&self) -> PullRequestView {
        self@
    }
}

impl Clone for PullRequest {
    fn clone(&self) -> (r: Self)
        ensures
            r@ == self@,
    {
        PullRequest {
            number: self.number,
            html_url: self.html_url.clone(),
            base_ref: self.base_ref.clone(),
            head_ref: self.head_ref.clone(),
            title: self.title.clone(),
            node_id: self.node_id.clone(),
            is_draft: self.is_draft,
        }
    }
}

/// Pull requests by the name of their head bookmark.
pub type PullRequestMap = StringHashMap<PullRequest>;

/// The views of the pull requests in a map, by bookmark name.
pub open spec fn pull_request_views(m: Map<Seq<char>, PullRequest>) -> Map<
    Seq<char>,
    PullRequestView,
> {
    m.map_values(|p: PullRequest| p@)
}

/// A comment on a pull request.
#[derive(Debug)]
pub struct PrComment {
    /// Comment ID
    pub id: u64,
    /// Comment body text
    pub body: String,
}

/// What a [`PrComment`] holds, as plain values.
pub struct PrCommentView {
    pub id: u64,
    pub body: Seq<char>,
}

impl View for PrComment {
    type V = PrCommentView;

    open spec fn view(&self) -> PrCommentView {
        PrCommentView { id: self.id, body: self.body@ }
    }
}

impl DeepView for PrComment {
    type V = PrCommentView;

    open spec fn deep_view(&self) -> PrCommentView {
        self@
    }
}

impl Clone for PrComment {
    fn clone(&self) -> (r: Self)
        ensures
            r@ == self@,
    {
        PrComment { id: self.id, body: self.body.clone() }
    }
}

/// A git remote.
#[derive(Debug)]
pub struct GitRemote {
    /// Remote name (e.g., "origin")
    pub name: String,
    /// Remote URL
    pub url: String,
}

/// What a [`GitRemote`] holds, as plain values.
pub struct GitRemoteView {
    pub name: Seq<char>,
    pub url: Seq<char>,
}

impl View for GitRemote {
    type V = GitRemoteView;

    open spec fn view(&self) -> GitRemoteView {
        GitRemoteView { name: self.name@, url: self.url@ }
    }
}

impl DeepView for GitRemote {
    type V = GitRemoteView;

    open spec fn deep_view(&self) -> GitRemoteView {
        self@
    }
}

impl Clone for GitRemote {
    fn clone(&self) -> (r: Self)
        ensures
            r@ == self@,
    {
        GitRemote { name: self.name.clone(), url: self.url.clone() }
    }
}

/// Which kind of platform hosts the repository.
#[derive(Debug, Clone, Copy, PartialEq, Eq, Structural)]
pub enum Platform {
    /// GitHub or GitHub Enterprise
    GitHub,
    /// GitLab or self-hosted GitLab
    GitLab,
}

impl Platform {
    /// The platform's name as it is shown to the user.
    pub open spec fn label(self) -> Seq<char> {
        match self {
            Platform::GitHub => "GitHub"@,
            Platform::GitLab => "GitLab"@,
        }
    }

    /// The platform's name as it is shown to the user.
    pub fn as_str(&self) -> (r: &'static str)
        ensures
            r@ == self.label(),
    {
        match self {
            Platform::GitHub => "GitHub",
            Platform::GitLab => "GitLab",
        }
    }
}

/// Where a repository lives.
#[derive(Debug)]
pub struct PlatformConfig {
    /// Platform type
    pub platform: Platform,
    /// Repository owner (user or organization)
    pub owner: String,
    /// Repository name
    pub repo: String,
    /// Custom host (None for github.com/gitlab.com)
    pub host: Option<String>,
}

/// What a [`PlatformConfig`] holds, as plain values.
pub struct PlatformConfigView {
    pub platform: Platform,
    pub owner: Seq<char>,
    pub repo: Seq<char>,
    pub host: Option<Seq<char>>,
}

impl View for PlatformConfig {
    type V = PlatformConfigView;

    open spec fn view(&self) -> PlatformConfigView {
        PlatformConfigView {
            platform: self.platform,
            owner: self.owner@,
            repo: self.repo@,
            host: self.host.deep_view(),
        }
    }
}

impl Clone for PlatformConfig {
    fn clone(&self) -> (r: Self)
        ensures
            r@ == self@,
    {
        PlatformConfig {
            platform: self.platform,
            owner: self.owner.clone(),
            repo: self.repo.clone(),
            host: self.host.clone(),
        }
    }
}

/// Lifecycle state of a pull request.
#[derive(Debug, Clone, Copy, PartialEq, Eq, Structural)]
pub enum PrState {
    /// PR is open and can be merged
    Open,
    /// PR was closed without merging
    Closed,
    /// PR was merged
    Merged,
}

impl PrState {
    /// The state in lower case.
    pub open spec fn label(self) -> Seq<char> {
        match self {
            PrState::Open => "open"@,
            PrState::Closed => "closed"@,
            PrState::Merged => "merged"@,
        }
    }

    /// The state in lower case.
    pub fn as_str(&self) -> (r: &'static str)
        ensures
            r@ == self.label(),
    {
        match self {
            PrState::Open => "open",
            PrState::Closed => "closed",
            PrState::Merged => "merged",
        }
    }
}

/// A pull request with what a merge needs to know of it.
#[derive(Debug)]
pub struct PullRequestDetails {
    /// PR/MR number
    pub number: u64,
    /// PR/MR title
    pub title: String,
    /// PR/MR body/description
    pub body: Option<String>,
    /// Current state of the PR
    pub state: PrState,
    /// Whether the PR is a draft
    pub is_draft: bool,
    /// Whether the PR can be merged: `None` while the platform still computes it
    pub mergeable: Option<bool>,
    /// Head branch name
    pub head_ref: String,
    /// Base branch name
    pub base_ref: String,
    /// Web URL for the PR/MR
    pub html_url: String,
}

/// What a [`PullRequestDetails`] holds, as plain values.
pub struct PullRequestDetailsView {
    pub number: u64,
    pub title: Seq<char>,
    pub body: Option<Seq<char>>,
    pub state: PrState,
    pub is_draft: bool,
    pub mergeable: Option<bool>,
    pub head_ref: Seq<char>,
    pub base_ref: Seq<char>,
    pub html_url: Seq<char>,
}

impl View for PullRequestDetails {
    type V = PullRequestDetailsView;

    open spec fn view(&self) -> PullRequestDetailsView {
        PullRequestDetailsView {
            number: self.number,
            title: self.title@,
            body: self.body.deep_view(),
            state: self.state,
            is_draft: self.is_draft,
            mergeable: self.mergeable,
            head_ref: self.head_ref@,
            base_ref: self.base_ref@,
            html_url: self.html_url@,
        }
    }
}

impl DeepView for PullRequestDetails {
    type V = PullRequestDetailsView;

    open spec fn deep_view(&self) -> PullRequestDetailsView {
        self@
    }
}

impl Clone for PullRequestDetails {
    fn clone(&self) -> (r: Self)
        ensures
            r@ == self@,
    {
        PullRequestDetails {
            number: self.number,
            title: self.title.clone(),
            body: self.body.clone(),
            state: self.state,
            is_draft: self.is_draft,
            mergeable: self.mergeable,
            head_ref: self.head_ref.clone(),
            base_ref: self.base_ref.clone(),
            html_url: self.html_url.clone(),
        }
    }
}

/// The conditions that decide whether a pull request can be merged now.
#[derive(Debug)]
pub struct MergeReadiness {
    /// Whether the PR has the approval it needs
    pub is_approved: bool,
    /// Whether CI checks have passed
    pub ci_passed: bool,
    /// Whether the PR can be merged: `Some(true)` without conflicts,
    /// `Some(false)` with conflicts, `None` while it is unknown
    pub is_mergeable: Option<bool>,
    /// Whether the PR is a draft
    pub is_draft: bool,
    /// Reasons why the PR cannot be merged (definitive blockers)
    pub blocking_reasons: Vec<String>,
    /// Reasons why the outcome of a merge is uncertain (not blockers)
    pub uncertainties: Vec<String>,
}

/// What a [`MergeReadiness`] holds, as plain values.
pub struct MergeReadinessView {
    pub is_approved: bool,
    pub ci_passed: bool,
    pub is_mergeable: Option<bool>,
    pub is_draft: bool,
    pub blocking_reasons: Seq<Seq<char>>,
    pub uncertainties: Seq<Seq<char>>,
}

impl MergeReadinessView {
    /// A pull request is blocked when it is not approved, CI is failing, it
    /// is a draft, or it is known to have conflicts.
    pub open spec fn is_blocked(self) -> bool {
        !self.is_approved || !self.ci_passed || self.is_draft || self.is_mergeable == Some(false)
    }

    /// The first uncertainty, if there is one.
    pub open spec fn uncertainty(self) -> Option<Seq<char>> {
        if self.uncertainties.len() > 0 {
            Some(self.uncertainties[0])
        } else {
            None
        }
    }
}

impl View for MergeReadiness {
    type V = MergeReadinessView;

    open spec fn view(&self) -> MergeReadinessView {
        MergeReadinessView {
            is_approved: self.is_approved,
            ci_passed: self.ci_passed,
            is_mergeable: self.is_mergeable,
            is_draft: self.is_draft,
            blocking_reasons: self.blocking_reasons.deep_view(),
            uncertainties: self.uncertainties.deep_view(),
        }
    }
}

impl DeepView for MergeReadiness {
    type V = MergeReadinessView;

    open spec fn deep_view(&self) -> MergeReadinessView {
        self@
    }
}

impl Clone for MergeReadiness {
    fn clone(&self) -> (r: Self)
        ensures
            r@ == self@,
    {
        MergeReadiness {
            is_approved: self.is_approved,
            ci_passed: self.ci_passed,
            is_mergeable: self.is_mergeable,
            is_draft: self.is_draft,
            blocking_reasons: clone_strings(&self.blocking_reasons),
            uncertainties: clone_strings(&self.uncertainties),
        }
    }
}

impl MergeReadiness {
    /// Whether a definitive blocker prevents the merge: the PR is not
    /// approved, CI is failing, it is a draft, or it has confirmed conflicts.
    /// Unknown mergeability does not block.
    pub fn is_blocked(&self) -> (r: bool)
        ensures
            r == self@.is_blocked(),
    {
        !self.is_approved || !self.ci_passed || self.is_draft || match self.is_mergeable {
            Some(m) => !m,
            None => false,
        }
    }

    /// The first uncertainty reason, if any.
    pub fn uncertainty(&self) -> (r: Option<&str>)
        ensures
            r.deep_view() == self@.uncertainty(),
    {
        if self.uncertainties.len() > 0 {
            Some(self.uncertainties[0].as_str())
        } else {
            None
        }
    }
}

/// A pull request is free to merge exactly when it is approved, CI has
/// passed, it is no draft, and its mergeability is either confirmed or still
/// unknown. Unknown mergeability never blocks.
pub proof fn lemma_blocked_iff(r: MergeReadinessView)
    ensures
        !r.is_blocked() <==> (r.is_approved && r.ci_passed && !r.is_draft && (r.is_mergeable
            == Some(true) || r.is_mergeable is None)),
{
    match r.is_mergeable {
        Some(m) => {
            assert(r.is_mergeable == Some(false) <==> !m);
        },
        None => {},
    }
}

/// What the platform answered to a merge request.
#[derive(Debug)]
pub struct MergeResult {
    /// Whether the merge was successful
    pub merged: bool,
    /// The SHA of the merge commit (if successful)
    pub sha: Option<String>,
    /// Message from the merge operation (especially on failure)
    pub message: Option<String>,
}

/// What a [`MergeResult`] holds, as plain values.
pub struct MergeResultView {
    pub merged: bool,
    pub sha: Option<Seq<char>>,
    pub message: Option<Seq<char>>,
}

impl View for MergeResult {
    type V = MergeResultView;

    open spec fn view(&self) -> MergeResultView {
        MergeResultView {
            merged: self.merged,
            sha: self.sha.deep_view(),
            message: self.message.deep_view(),
        }
    }
}

impl Clone for MergeResult {
    fn clone(&self) -> (r: Self)
        ensures
            r@ == self@,
    {
        MergeResult { merged: self.merged, sha: self.sha.clone(), message: self.message.clone() }
    }
}

/// How a pull request is merged.
#[derive(Debug, Clone, Copy, PartialEq, Eq, Structural)]
pub enum MergeMethod {
    /// Squash all commits into one
    Squash,
    /// Create a merge commit
    Merge,
    /// Rebase commits onto base branch
    Rebase,
}

impl MergeMethod {
    /// The method in lower case.
    pub open spec fn label(self) -> Seq<char> {
        match self {
            MergeMethod::Squash => "squash"@,
            MergeMethod::Merge => "merge"@,
            MergeMethod::Rebase => "rebase"@,
        }
    }

    /// The method in lower case.
    pub fn as_str(&self) -> (r: &'static str)
        ensures
            r@ == self.label(),
    {
        match self {
            MergeMethod::Squash => "squash",
            MergeMethod::Merge => "merge",
            MergeMethod::Rebase => "rebase",
        }
    }
}

/// Where an authentication token came from.
#[derive(Debug, Clone, Copy, PartialEq, Eq, Structural)]
pub enum AuthSource {
    /// Token from a CLI tool
    Cli,
    /// Token from an environment variable
    EnvVar,
}

} // verus!
