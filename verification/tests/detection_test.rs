//! Tests for reading the platform and the repository off a remote's URL.

use jj_ryu::error::Error;
use jj_ryu::platform::{
    detect_platform, detect_platform_with_hosts, parse_repo_info, parse_repo_info_with_hosts,
};
use jj_ryu::types::Platform;

#[test]
fn test_github_ssh_without_git_extension() {
    let config = parse_repo_info("git@github.com:owner/repo").unwrap();
    assert_eq!(config.platform, Platform::GitHub);
    assert_eq!(config.owner, "owner");
    assert_eq!(config.repo, "repo");
}

#[test]
fn test_github_https_without_git_extension() {
    let config = parse_repo_info("https://github.com/owner/repo").unwrap();
    assert_eq!(config.platform, Platform::GitHub);
    assert_eq!(config.owner, "owner");
    assert_eq!(config.repo, "repo");
}

#[test]
fn test_gitlab_deeply_nested_groups() {
    let config = parse_repo_info("https://gitlab.com/a/b/c/d/repo.git").unwrap();
    assert_eq!(config.platform, Platform::GitLab);
    assert_eq!(config.owner, "a/b/c/d");
    assert_eq!(config.repo, "repo");
}

#[test]
fn test_gitlab_ssh_nested_groups() {
    let config = parse_repo_info("git@gitlab.com:group/subgroup/repo.git").unwrap();
    assert_eq!(config.platform, Platform::GitLab);
    assert_eq!(config.owner, "group/subgroup");
    assert_eq!(config.repo, "repo");
}

#[test]
fn test_unknown_platform_returns_none() {
    let platform = detect_platform("https://bitbucket.org/owner/repo.git");
    assert_eq!(platform, None);
}

#[test]
fn test_parse_unknown_platform_returns_error() {
    let result = parse_repo_info("https://bitbucket.org/owner/repo.git");
    assert!(result.is_err());
}

#[test]
fn test_invalid_url_returns_no_supported_remotes() {
    // Invalid URLs that can't be parsed return NoSupportedRemotes
    let result = parse_repo_info("not-a-valid-url");
    match result {
        Err(Error::NoSupportedRemotes) => {} // Expected
        other => panic!("Expected NoSupportedRemotes error, got: {other:?}"),
    }
}

#[test]
fn test_github_url_with_trailing_slash() {
    // Trailing slashes are stripped before parsing
    let config = parse_repo_info("https://github.com/owner/repo/").unwrap();
    assert_eq!(config.platform, Platform::GitHub);
    assert_eq!(config.owner, "owner");
    assert_eq!(config.repo, "repo");
}

#[test]
fn test_github_url_with_multiple_trailing_slashes() {
    let config = parse_repo_info("https://github.com/owner/repo///").unwrap();
    assert_eq!(config.owner, "owner");
    assert_eq!(config.repo, "repo");
}

#[test]
fn test_gitlab_single_level_group() {
    let config = parse_repo_info("https://gitlab.com/owner/repo.git").unwrap();
    assert_eq!(config.platform, Platform::GitLab);
    assert_eq!(config.owner, "owner");
    assert_eq!(config.repo, "repo");
}

#[test]
fn test_github_with_git_extension() {
    let config = parse_repo_info("git@github.com:owner/repo.git").unwrap();
    assert_eq!(config.platform, Platform::GitHub);
    assert_eq!(config.repo, "repo"); // .git should be stripped
}

#[test]
fn detect_known_hosts() {
    assert_eq!(detect_platform("git@github.com:o/r"), Some(Platform::GitHub));
    assert_eq!(detect_platform("http://gitlab.com/o/r"), Some(Platform::GitLab));
    assert_eq!(detect_platform("https://api.github.com/o/r"), Some(Platform::GitHub));
    assert_eq!(detect_platform("https://notgithub.com/o/r"), None);
    assert_eq!(detect_platform("https://github.com"), None);
    assert_eq!(detect_platform("https://github.com/"), None);
    assert_eq!(detect_platform("ftp://github.com/o/r"), None);
    assert_eq!(detect_platform(""), None);
}

#[test]
fn own_installations_are_named_by_host() {
    let url = "git@git.corp.example:team/tools/repo.git";
    assert_eq!(detect_platform(url), None);
    assert_eq!(
        detect_platform_with_hosts(url, None, Some("git.corp.example")),
        Some(Platform::GitLab)
    );
    assert_eq!(
        detect_platform_with_hosts(url, Some("git.corp.example"), Some("git.corp.example")),
        Some(Platform::GitHub)
    );
    let config = parse_repo_info_with_hosts(url, None, Some("git.corp.example")).unwrap();
    assert_eq!(config.platform, Platform::GitLab);
    assert_eq!(config.owner, "team/tools");
    assert_eq!(config.repo, "repo");
    assert_eq!(config.host, Some("git.corp.example".to_string()));
    assert_eq!(parse_repo_info("https://github.com/o/r").unwrap().host, None);
    assert_eq!(
        parse_repo_info("https://eu.gitlab.com/o/r").unwrap().host,
        Some("eu.gitlab.com".to_string())
    );
}

#[test]
fn paths_without_owner_or_repository_tell_nothing() {
    for url in [
        "https://github.com/repo",
        "https://github.com/owner/",
        "https://github.com//repo",
        "https://github.com/owner/.git",
        "git@github.com:repo.git",
        "git@github.com",
        "git@:owner/repo",
        "https:///owner/repo",
    ] {
        assert!(
            matches!(parse_repo_info(url), Err(Error::NoSupportedRemotes)),
            "{url} should tell nothing"
        );
    }
    let config = parse_repo_info("https://github.com/owner/repo.git.git").unwrap();
    assert_eq!(config.repo, "repo.git");
}
