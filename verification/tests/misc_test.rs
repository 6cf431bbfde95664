//! Tests for remotes, command scopes, readiness and the platform rules.

use jj_ryu::cli::{
    require_followed, require_followed_or_all, sync_scope, MergeOptions, SyncOptions,
};
use jj_ryu::error::Error;
use jj_ryu::platform::github;
use jj_ryu::platform::github::{CheckRun, IssueState};
use jj_ryu::platform::gitlab;
use jj_ryu::platform::readiness::build_readiness;
use jj_ryu::repo::select_remote;
use jj_ryu::submit::SubmissionAnalysis;
use jj_ryu::text::{contains_name, name_precedes_exec, str_eq, to_chars};
use jj_ryu::types::{
    AuthSource, Bookmark, GitRemote, NarrowedBookmarkSegment, Platform, PrState,
    PullRequestDetails,
};

fn make_remote(name: &str) -> GitRemote {
    GitRemote {
        name: name.to_string(),
        url: format!("https://github.com/test/{name}.git"),
    }
}

#[test]
fn test_select_remote_single_remote() {
    let remotes = vec![make_remote("upstream")];
    let result = select_remote(&remotes, None).unwrap();
    assert_eq!(result, "upstream");
}

#[test]
fn test_select_remote_prefers_origin() {
    let remotes = vec![
        make_remote("upstream"),
        make_remote("origin"),
        make_remote("fork"),
    ];
    let result = select_remote(&remotes, None).unwrap();
    assert_eq!(result, "origin");
}

#[test]
fn test_select_remote_no_origin_uses_first() {
    let remotes = vec![make_remote("upstream"), make_remote("fork")];
    let result = select_remote(&remotes, None).unwrap();
    assert_eq!(result, "upstream");
}

#[test]
fn test_select_remote_specified_exists() {
    let remotes = vec![make_remote("origin"), make_remote("fork")];
    let result = select_remote(&remotes, Some("fork")).unwrap();
    assert_eq!(result, "fork");
}

#[test]
fn test_select_remote_specified_not_found() {
    let remotes = vec![make_remote("origin")];
    let result = select_remote(&remotes, Some("nonexistent"));
    match result {
        Err(Error::RemoteNotFound(name)) => assert_eq!(name, "nonexistent"),
        other => panic!("Expected RemoteNotFound error, got: {other:?}"),
    }
}

#[test]
fn test_select_remote_none_available() {
    let remotes: Vec<GitRemote> = vec![];
    let result = select_remote(&remotes, None);
    match result {
        Err(Error::NoSupportedRemotes) => {}
        other => panic!("Expected NoSupportedRemotes error, got: {other:?}"),
    }
}

#[test]
fn error_messages() {
    assert_eq!(Error::BookmarkNotFound("x".into()).message(), "bookmark not found: x");
    assert_eq!(Error::NoStack.message(), "no stack found between trunk and working copy");
    assert_eq!(Error::RemoteNotFound("up".into()).message(), "remote not found: up");
    assert_eq!(
        Error::NoSupportedRemotes.message(),
        "no supported remotes found (GitHub/GitLab)"
    );
    assert_eq!(Error::GitHubApi("a".into()).message(), "GitHub API error: a");
    assert_eq!(Error::GitLabApi("b".into()).message(), "GitLab API error: b");
    assert_eq!(Error::Platform("c".into()).message(), "platform error: c");
    assert_eq!(Error::Tracking("d".into()).message(), "tracking error: d");
    assert_eq!(Error::Internal("e".into()).message(), "internal error: e");
    assert!(matches!(Error::Platform("c".into()).clone(), Error::Platform(c) if c == "c"));
}

fn segment(name: &str) -> NarrowedBookmarkSegment {
    NarrowedBookmarkSegment {
        bookmark: Bookmark {
            name: name.to_string(),
            commit_id: String::new(),
            change_id: String::new(),
            has_remote: false,
            is_synced: false,
        },
        changes: vec![],
    }
}

fn analysis(names: &[&str]) -> SubmissionAnalysis {
    SubmissionAnalysis {
        target_bookmark: names.last().map(|n| n.to_string()).unwrap_or_default(),
        segments: names.iter().map(|n| segment(n)).collect(),
    }
}

#[test]
fn sync_scope_rules() {
    let followed = vec!["b".to_string(), "zz".to_string()];
    let scoped = sync_scope(analysis(&["a", "b", "c"]), &followed, false).unwrap();
    assert_eq!(scoped.segments.len(), 1);
    assert_eq!(scoped.segments[0].bookmark.name, "b");
    assert_eq!(scoped.target_bookmark, "c");

    let all = sync_scope(analysis(&["a", "b", "c"]), &vec![], true).unwrap();
    assert_eq!(all.segments.len(), 3);

    match sync_scope(analysis(&["a"]), &vec![], false) {
        Err(Error::Tracking(text)) => assert_eq!(
            text,
            "No bookmarks tracked. Run 'ryu track' first, or use 'ryu sync --all' to sync all bookmarks."
        ),
        other => panic!("unexpected: {other:?}"),
    }
    match sync_scope(analysis(&["a"]), &followed, false) {
        Err(Error::Tracking(text)) => assert_eq!(
            text,
            "No tracked bookmarks in stack. Use 'ryu track' to track bookmarks, or 'ryu sync --all'."
        ),
        other => panic!("unexpected: {other:?}"),
    }
    assert!(require_followed_or_all(&followed, false).is_ok());
    assert!(require_followed_or_all(&vec![], true).is_ok());
    assert!(matches!(require_followed_or_all(&vec![], false), Err(Error::Tracking(_))));
    assert!(require_followed(&followed).is_ok());
    match require_followed(&vec![]) {
        Err(Error::Tracking(text)) => {
            assert_eq!(text, "No bookmarks tracked. Run 'ryu track' first.")
        }
        other => panic!("unexpected: {other:?}"),
    }
}

#[test]
fn options_default_to_off() {
    let merge = MergeOptions::default();
    assert!(!merge.dry_run && !merge.confirm);
    let sync = SyncOptions::default();
    assert!(!sync.dry_run && !sync.confirm && !sync.all);
    assert_ne!(AuthSource::Cli, AuthSource::EnvVar);
}

fn details(is_draft: bool, mergeable: Option<bool>) -> PullRequestDetails {
    PullRequestDetails {
        number: 1,
        title: "t".to_string(),
        body: None,
        state: PrState::Open,
        is_draft,
        mergeable,
        head_ref: "h".to_string(),
        base_ref: "b".to_string(),
        html_url: "u".to_string(),
    }
}

#[test]
fn readiness_reasons_in_order() {
    let r = github::merge_readiness(&details(true, Some(false)), false, false);
    assert_eq!(
        r.blocking_reasons,
        vec!["PR is a draft", "Not approved", "CI not passing", "Has merge conflicts"]
    );
    assert!(r.uncertainties.is_empty());
    assert!(r.is_blocked());

    let r = gitlab::merge_readiness(&details(true, Some(true)), true, true);
    assert_eq!(r.blocking_reasons, vec!["MR is a draft"]);
    assert!(r.is_blocked());

    // GitLab always knows whether an MR can be merged: nothing is uncertain.
    let r = gitlab::merge_readiness(&details(false, None), true, true);
    assert!(r.uncertainties.is_empty());
    assert!(r.blocking_reasons.is_empty());
    assert_eq!(r.uncertainty(), None);

    let r = github::merge_readiness(&details(false, None), true, true);
    assert!(r.blocking_reasons.is_empty());
    assert_eq!(r.uncertainties, vec!["Merge status unknown (GitHub still computing)"]);
    assert!(!r.is_blocked());
    assert_eq!(r.uncertainty(), Some("Merge status unknown (GitHub still computing)"));
    assert_eq!(r.is_mergeable, None);
}

#[test]
fn blocked_exactly_when_a_reason_is_given() {
    for bits in 0..32u8 {
        let is_draft = bits & 1 != 0;
        let approved = bits & 2 != 0;
        let ci = bits & 4 != 0;
        let mergeable = match (bits >> 3) & 3 {
            0 => None,
            1 => Some(true),
            _ => Some(false),
        };
        for platform in [Platform::GitHub, Platform::GitLab] {
            let r = build_readiness(platform, &details(is_draft, mergeable), approved, ci);
            assert_eq!(r.is_blocked(), !r.blocking_reasons.is_empty());
            assert_eq!(
                r.is_blocked(),
                !(approved && ci && !is_draft && mergeable != Some(false))
            );
            assert_eq!(
                r.uncertainty().is_some(),
                platform == Platform::GitHub && mergeable.is_none()
            );
        }
    }
}

#[test]
fn github_rules() {
    assert_eq!(github::pr_state(Some(IssueState::Open), false), PrState::Open);
    assert_eq!(github::pr_state(Some(IssueState::Open), true), PrState::Open);
    assert_eq!(github::pr_state(Some(IssueState::Closed), true), PrState::Merged);
    assert_eq!(github::pr_state(Some(IssueState::Closed), false), PrState::Closed);
    assert_eq!(github::pr_state(Some(IssueState::Other), true), PrState::Closed);
    assert_eq!(github::pr_state(None, true), PrState::Closed);

    assert!(github::commit_statuses_passed("failure", 0));
    assert!(github::commit_statuses_passed("success", 3));
    assert!(!github::commit_statuses_passed("pending", 3));

    let run = |status: &str, conclusion: Option<&str>| CheckRun {
        status: status.to_string(),
        conclusion: conclusion.map(|c| c.to_string()),
    };
    assert!(github::check_runs_passed(0, &vec![run("queued", None)]));
    assert!(github::check_runs_passed(
        3,
        &vec![
            run("completed", Some("success")),
            run("completed", Some("neutral")),
            run("completed", Some("skipped")),
        ]
    ));
    assert!(!github::check_runs_passed(1, &vec![run("in_progress", None)]));
    assert!(!github::check_runs_passed(1, &vec![run("completed", None)]));
    assert!(!github::check_runs_passed(
        2,
        &vec![run("completed", Some("success")), run("completed", Some("failure"))]
    ));
    assert!(github::check_runs_passed(1, &vec![]));
    assert!(github::ci_passed(true, true));
    assert!(!github::ci_passed(true, false));
    assert!(!github::ci_passed(false, true));

    assert_eq!(github::api_host(&None), "api.github.com");
    assert_eq!(github::api_host(&Some("git.corp".to_string())), "git.corp/api/v3");
    assert_eq!(github::head_filter("owner", "feat-a"), "owner:feat-a");
    assert_eq!(github::squash_commit_title("Add A", 120), "Add A (#120)");
}

#[test]
fn gitlab_rules() {
    assert_eq!(gitlab::pr_state("opened"), PrState::Open);
    assert_eq!(gitlab::pr_state("merged"), PrState::Merged);
    assert_eq!(gitlab::pr_state("closed"), PrState::Closed);
    assert_eq!(gitlab::pr_state("locked"), PrState::Closed);
    assert_eq!(gitlab::mergeable("can_be_merged"), Some(true));
    assert_eq!(gitlab::mergeable("cannot_be_merged"), Some(false));
    assert_eq!(gitlab::mergeable("checking"), Some(false));
    assert!(gitlab::pipeline_passed(None));
    assert!(gitlab::pipeline_passed(Some("success")));
    assert!(!gitlab::pipeline_passed(Some("running")));
    assert!(gitlab::merged("merged"));
    assert!(!gitlab::merged("opened"));
    assert_eq!(gitlab::config_host("gitlab.com"), None);
    assert_eq!(gitlab::config_host("git.corp"), Some("git.corp".to_string()));
    assert_eq!(gitlab::project_path("group/sub", "repo"), "group/sub/repo");
    assert_eq!(gitlab::api_url("gitlab.com", "/projects/1"), "https://gitlab.com/api/v4/projects/1");
    assert_eq!(
        gitlab::squash_commit_message("Add A", 7, Some("Body")),
        "Add A (!7)\n\nBody"
    );
    assert_eq!(gitlab::squash_commit_message("Add A", 7, None), "Add A (!7)\n\n");
}

#[test]
fn gitlab_project_is_percent_encoded() {
    assert_eq!(gitlab::encoded_project("group/sub/repo"), "group%2Fsub%2Frepo");
    assert_eq!(gitlab::encoded_project("plain-Name_1.x~"), "plain-Name_1.x~");
    assert_eq!(gitlab::encoded_project("a b/ü"), "a%20b%2F%C3%BC");
}

#[test]
fn gitlab_user_comments_leave_out_system_notes() {
    let notes = vec![
        gitlab::MrNote { id: 1, body: "changed the title".to_string(), system: true },
        gitlab::MrNote { id: 2, body: "hello".to_string(), system: false },
        gitlab::MrNote { id: 3, body: "approved".to_string(), system: true },
        gitlab::MrNote { id: 4, body: "again".to_string(), system: false },
    ];
    let comments = gitlab::user_comments(&notes);
    let got: Vec<(u64, &str)> = comments.iter().map(|c| (c.id, c.body.as_str())).collect();
    assert_eq!(got, vec![(2, "hello"), (4, "again")]);
}

#[test]
fn text_helpers() {
    assert!(str_eq("", ""));
    assert!(str_eq("añb", "añb"));
    assert!(!str_eq("a", "b"));
    assert!(!str_eq("a", "ab"));
    assert!(name_precedes_exec("zz", "aaa"));
    assert!(name_precedes_exec("aaa", "aab"));
    assert!(!name_precedes_exec("aab", "aaa"));
    assert!(!name_precedes_exec("same", "same"));
    assert!(name_precedes_exec("", "a"));
    assert!(contains_name(&vec!["a".to_string(), "b".to_string()], "b"));
    assert!(!contains_name(&vec!["a".to_string()], "b"));
    assert_eq!(to_chars("a👈b"), vec!['a', '👈', 'b']);
}

#[test]
fn bookmark_state_from_refs() {
    let b = Bookmark::from_refs("a".into(), "c1".into(), "x1".into(), &vec![]);
    assert!(!b.has_remote && !b.is_synced);
    let b = Bookmark::from_refs("a".into(), "c1".into(), "x1".into(), &vec!["c0".to_string()]);
    assert!(b.has_remote && !b.is_synced);
    let b = Bookmark::from_refs(
        "a".into(),
        "c1".into(),
        "x1".into(),
        &vec!["c0".to_string(), "c1".to_string()],
    );
    assert!(b.has_remote && b.is_synced);
    assert_eq!((b.name.as_str(), b.commit_id.as_str(), b.change_id.as_str()), ("a", "c1", "x1"));
}
