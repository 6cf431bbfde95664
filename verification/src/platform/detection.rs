//! Telling the platform, the owner and the repository from the URL of a
//! remote.
//!
//! Two forms of URL are read: `git@host:path` and `http(s)://host/path`.
//! The path may end in `.git` and in slashes; its last part is the
//! repository, what stands before it the owner (on GitLab that can be a
//! group with subgroups).

use vstd::prelude::*;
use crate::error::Error;
use crate::error::ErrorView;
use crate::text::chars_eq;
use crate::text::copy_range;
use crate::text::first_index_of;
use crate::text::has_part_at;
use crate::text::has_part_before;
use crate::text::string_from_chars;
use crate::text::to_chars;
use crate::types::Platform;
use crate::types::PlatformConfig;
use crate::types::PlatformConfigView;

verus! {

/// The position behind the last `c` in `text`, or 0 where it has none.
pub open spec fn after_last(text: Seq<char>, c: char) -> int
    decreases text.len(),
{
    if text.len() == 0 {
        0
    } else if text.last() == c {
        text.len() as int
    } else {
        after_last(text.drop_last(), c)
    }
}

/// `text` without the slashes at its end.
pub open spec fn trim_slashes(text: Seq<char>) -> Seq<char>
    decreases text.len(),
{
    if text.len() > 0 && text.last() == '/' {
        trim_slashes(text.drop_last())
    } else {
        text
    }
}

/// `text` without `.git` at its end, if it ends so.
pub open spec fn strip_git(text: Seq<char>) -> Seq<char> {
    if ".git"@.is_suffix_of(text) {
        text.take(text.len() - 4)
    } else {
        text
    }
}

/// What stands behind the scheme of a URL, and the character that ends the
/// host: `:` behind `git@`, `/` behind `https://` and `http://`.
pub open spec fn after_scheme(url: Seq<char>) -> Option<(Seq<char>, char)> {
    if "git@"@.is_prefix_of(url) {
        Some((url.skip(4), ':'))
    } else if "https://"@.is_prefix_of(url) {
        Some((url.skip(8), '/'))
    } else if "http://"@.is_prefix_of(url) {
        Some((url.skip(7), '/'))
    } else {
        None
    }
}

/// The host and the path of a URL, where it has one of the two forms and
/// neither host nor path is empty.
pub open spec fn host_and_path(url: Seq<char>) -> Option<(Seq<char>, Seq<char>)> {
    match after_scheme(url) {
        Some((rest, end)) => {
            let at = first_index_of(rest, end);
            if 0 < at && at + 1 < rest.len() {
                Some((rest.take(at), rest.skip(at + 1)))
            } else {
                None
            }
        },
        None => None,
    }
}

/// Whether `host` is the platform's own host `home`, a host below it, or
/// the host of an installation named in `custom`.
pub open spec fn is_host_of(host: Seq<char>, home: Seq<char>, custom: Option<Seq<char>>) -> bool {
    host == home || (seq!['.'] + home).is_suffix_of(host) || custom == Some(host)
}

/// The platform that serves `host`, if it is one that is known.
pub open spec fn platform_of_host(
    host: Seq<char>,
    github_host: Option<Seq<char>>,
    gitlab_host: Option<Seq<char>>,
) -> Option<Platform> {
    if is_host_of(host, "github.com"@, github_host) {
        Some(Platform::GitHub)
    } else if is_host_of(host, "gitlab.com"@, gitlab_host) {
        Some(Platform::GitLab)
    } else {
        None
    }
}

/// The platform of a URL, if the URL has a host and the host is known.
pub open spec fn platform_of_url(
    url: Seq<char>,
    github_host: Option<Seq<char>>,
    gitlab_host: Option<Seq<char>>,
) -> Option<Platform> {
    match host_and_path(trim_slashes(url)) {
        Some((host, _)) => platform_of_host(host, github_host, gitlab_host),
        None => None,
    }
}

/// The platform's own host.
pub open spec fn home_host(platform: Platform) -> Seq<char> {
    match platform {
        Platform::GitHub => "github.com"@,
        Platform::GitLab => "gitlab.com"@,
    }
}

/// What a URL says of the repository: platform, owner and repository, and
/// the host where it is not the platform's own. There is nothing to say
/// where the URL has neither of the two forms, where the platform is not
/// known, or where the path has no owner or no repository.
pub open spec fn repo_info_of(
    url: Seq<char>,
    github_host: Option<Seq<char>>,
    gitlab_host: Option<Seq<char>>,
) -> Option<PlatformConfigView> {
    match host_and_path(trim_slashes(url)) {
        Some((host, full_path)) => {
            let path = strip_git(full_path);
            let cut = after_last(path, '/');
            match platform_of_host(host, github_host, gitlab_host) {
                Some(platform) => if 1 < cut < path.len() {
                    Some(
                        PlatformConfigView {
                            platform,
                            owner: path.take(cut - 1),
                            repo: path.skip(cut),
                            host: if host == home_host(platform) {
                                None
                            } else {
                                Some(host)
                            },
                        },
                    )
                } else {
                    None
                },
                None => None,
            }
        },
        None => None,
    }
}

/// The parts of a URL that the rules read.
struct UrlParts {
    host: Vec<char>,
    path: Vec<char>,
}

/// Splits a URL into host and path.
fn split_url(url: &str) -> (r: Option<UrlParts>)
    ensures
        match r {
            Some(parts) => host_and_path(trim_slashes(url@)) == Some((parts.host@, parts.path@)),
            None => host_and_path(trim_slashes(url@)) is None,
        },
{
    let text = to_chars(url);
    let mut end: usize = text.len();
    proof {
        assert(text@.take(end as int) =~= text@);
    }
    while end > 0 && text[end - 1] == '/'
        invariant
            end <= text@.len(),
            trim_slashes(text@) == trim_slashes(text@.take(end as int)),
        decreases end,
    {
        proof {
            assert(text@.take(end as int).drop_last() =~= text@.take(end - 1));
        }
        end -= 1;
    }
    let ghost trimmed = text@.take(end as int);
    proof {
        reveal_strlit("git@");
        reveal_strlit("https://");
        reveal_strlit("http://");
        assert(trim_slashes(text@) == trimmed);
    }
    let cut = copy_range(&text, 0, end);
    proof {
        assert(cut@ =~= trimmed);
        assert(cut@.skip(0) =~= cut@);
    }
    let ssh = to_chars("git@");
    let https = to_chars("https://");
    let http = to_chars("http://");
    let (start, stop): (usize, char) = if has_part_at(&cut, 0, &ssh) {
        (4, ':')
    } else if has_part_at(&cut, 0, &https) {
        (8, '/')
    } else if has_part_at(&cut, 0, &http) {
        (7, '/')
    } else {
        return None;
    };
    let ghost rest = cut@.skip(start as int);
    let n = cut.len();
    let mut at: usize = start;
    proof {
        assert(rest.skip(0) =~= rest);
    }
    while at < n && cut[at] != stop
        invariant
            n == cut@.len(),
            start <= at <= n,
            rest == cut@.skip(start as int),
            first_index_of(rest, stop) == (at - start) + first_index_of(
                rest.skip(at - start),
                stop,
            ),
        decreases n - at,
    {
        proof {
            assert(rest.skip(at - start)[0] == cut@[at as int]);
            assert(rest.skip(at - start).drop_first() =~= rest.skip(at - start + 1));
        }
        at += 1;
    }
    proof {
        if at < n {
            assert(rest.skip(at - start)[0] == cut@[at as int]);
        } else {
            assert(rest.skip(at - start).len() == 0);
        }
        assert(first_index_of(rest, stop) == at - start);
    }
    if at == start || n - at <= 1 {
        return None;
    }
    let host = copy_range(&cut, start, at);
    let path = copy_range(&cut, at + 1, n);
    proof {
        assert(host@ =~= rest.take(at - start));
        assert(path@ =~= rest.skip(at - start + 1));
    }
    Some(UrlParts { host, path })
}

/// Whether `host` belongs to the platform whose own host is `home`.
fn host_matches(host: &Vec<char>, home: &str, custom: Option<&str>) -> (r: bool)
    ensures
        r == is_host_of(host@, home@, custom.deep_view()),
{
    let home_chars = to_chars(home);
    if chars_eq(host, &home_chars) {
        return true;
    }
    let mut below: Vec<char> = Vec::new();
    below.push('.');
    let mut i: usize = 0;
    while i < home_chars.len()
        invariant
            i <= home_chars@.len(),
            below@ == seq!['.'] + home_chars@.take(i as int),
        decreases home_chars@.len() - i,
    {
        below.push(home_chars[i]);
        proof {
            assert(below@ =~= seq!['.'] + home_chars@.take(i + 1));
        }
        i += 1;
    }
    proof {
        assert(home_chars@.take(i as int) =~= home_chars@);
        assert(host@.take(host@.len() as int) =~= host@);
    }
    if has_part_before(host, host.len(), &below) {
        return true;
    }
    match custom {
        Some(name) => {
            let name_chars = to_chars(name);
            chars_eq(host, &name_chars)
        },
        None => false,
    }
}

/// The platform that serves `host`.
fn platform_for(host: &Vec<char>, github_host: Option<&str>, gitlab_host: Option<&str>) -> (r:
    Option<Platform>)
    ensures
        r == platform_of_host(host@, github_host.deep_view(), gitlab_host.deep_view()),
{
    if host_matches(host, "github.com", github_host) {
        Some(Platform::GitHub)
    } else if host_matches(host, "gitlab.com", gitlab_host) {
        Some(Platform::GitLab)
    } else {
        None
    }
}

/// Tells the platform of a remote from its URL, where installations of
/// one's own are named by their hosts.
pub fn detect_platform_with_hosts(
    url: &str,
    github_host: Option<&str>,
    gitlab_host: Option<&str>,
) -> (r: Option<Platform>)
    ensures
        r == platform_of_url(url@, github_host.deep_view(), gitlab_host.deep_view()),
{
    match split_url(url) {
        Some(parts) => platform_for(&parts.host, github_host, gitlab_host),
        None => None,
    }
}

/// Tells the platform of a remote from its URL.
pub fn detect_platform(url: &str) -> (r: Option<Platform>)
    ensures
        r == platform_of_url(url@, None, None),
{
    detect_platform_with_hosts(url, None, None)
}

/// Reads platform, owner and repository off the URL of a remote, where
/// installations of one's own are named by their hosts. A URL that tells
/// nothing gives the error that no remote is supported.
pub fn parse_repo_info_with_hosts(
    url: &str,
    github_host: Option<&str>,
    gitlab_host: Option<&str>,
) -> (r: Result<PlatformConfig, Error>)
    ensures
        match r {
            Ok(config) => repo_info_of(url@, github_host.deep_view(), gitlab_host.deep_view())
                == Some(config@),
            Err(e) => repo_info_of(url@, github_host.deep_view(), gitlab_host.deep_view()) is None
                && e@ == ErrorView::NoSupportedRemotes,
        },
{
    let parts = match split_url(url) {
        Some(parts) => parts,
        None => {
            return Err(Error::NoSupportedRemotes);
        },
    };
    let platform = match platform_for(&parts.host, github_host, gitlab_host) {
        Some(platform) => platform,
        None => {
            return Err(Error::NoSupportedRemotes);
        },
    };
    let full = &parts.path;
    let git = to_chars(".git");
    proof {
        reveal_strlit(".git");
        assert(full@.take(full@.len() as int) =~= full@);
    }
    let end: usize = if has_part_before(full, full.len(), &git) {
        full.len() - 4
    } else {
        full.len()
    };
    let ghost path = strip_git(full@);
    proof {
        assert(path =~= full@.take(end as int));
    }
    let mut cut: usize = end;
    proof {
        assert(path.take(cut as int) =~= path);
    }
    while cut > 0 && full[cut - 1] != '/'
        invariant
            cut <= end <= full@.len(),
            path == full@.take(end as int),
            after_last(path, '/') == after_last(path.take(cut as int), '/'),
        decreases cut,
    {
        proof {
            assert(path.take(cut as int).drop_last() =~= path.take(cut - 1));
            assert(path.take(cut as int).last() == full@[cut - 1]);
        }
        cut -= 1;
    }
    proof {
        if cut > 0 {
            assert(path.take(cut as int).last() == full@[cut - 1]);
        }
        assert(after_last(path, '/') == cut);
    }
    if cut <= 1 || cut >= end {
        return Err(Error::NoSupportedRemotes);
    }
    let owner = copy_range(full, 0, cut - 1);
    let repo = copy_range(full, cut, end);
    proof {
        assert(owner@ =~= path.take(cut - 1));
        assert(repo@ =~= path.skip(cut as int));
    }
    let home = match platform {
        Platform::GitHub => to_chars("github.com"),
        Platform::GitLab => to_chars("gitlab.com"),
    };
    let host = if chars_eq(&parts.host, &home) {
        None
    } else {
        Some(string_from_chars(&parts.host))
    };
    Ok(
        PlatformConfig {
            platform,
            owner: string_from_chars(&owner),
            repo: string_from_chars(&repo),
            host,
        },
    )
}

/// Reads platform, owner and repository off the URL of a remote.
pub fn parse_repo_info(url: &str) -> (r: Result<PlatformConfig, Error>)
    ensures
        match r {
            Ok(config) => repo_info_of(url@, None, None) == Some(config@),
            Err(e) => repo_info_of(url@, None, None) is None && e@ == ErrorView::NoSupportedRemotes,
        },
{
    parse_repo_info_with_hosts(url, None, None)
}

} // verus!
