//! What is decided on the GitLab side: MR state, pipelines, and the texts
//! that go into requests.

use vstd::prelude::*;
use vstd::string::StringExecFns;
use vstd::string::StringSliceAdditionalSpecFns;
use crate::platform::readiness::build_readiness;
use crate::platform::readiness::readiness_of;
use crate::text::append_decimal;
use crate::text::decimal;
use crate::text::lemma_deep_view_index;
use crate::text::lemma_deep_view_push;
use crate::text::str_eq;
use crate::types::MergeReadiness;
use crate::types::Platform;
use crate::types::PrComment;
use crate::types::PrCommentView;
use crate::types::PrState;
use crate::types::PullRequestDetails;

verus! {

/// The state of an MR: open for `opened`, merged for `merged`, closed for
/// everything else.
pub open spec fn pr_state_of(state: Seq<char>) -> PrState {
    if state == "opened"@ {
        PrState::Open
    } else if state == "merged"@ {
        PrState::Merged
    } else {
        PrState::Closed
    }
}

/// The state of an MR from what GitLab reports.
pub fn pr_state(state: &str) -> (r: PrState)
    ensures
        r == pr_state_of(state@),
{
    if str_eq(state, "opened") {
        PrState::Open
    } else if str_eq(state, "merged") {
        PrState::Merged
    } else {
        PrState::Closed
    }
}

/// Whether an MR can be merged. GitLab always knows: the answer is never
/// `None`.
pub fn mergeable(merge_status: &str) -> (r: Option<bool>)
    ensures
        r == Some(merge_status@ == "can_be_merged"@),
{
    Some(str_eq(merge_status, "can_be_merged"))
}

/// Whether the pipelines let a merge pass: there is none, or the latest
/// ended in success.
pub fn pipeline_passed(latest_status: Option<&str>) -> (r: bool)
    ensures
        r == match latest_status {
            Some(status) => status@ == "success"@,
            None => true,
        },
{
    match latest_status {
        Some(status) => str_eq(status, "success"),
        None => true,
    }
}

/// Whether the answer to a merge says that the MR was merged.
pub fn merged(state: &str) -> (r: bool)
    ensures
        r == (state@ == "merged"@),
{
    str_eq(state, "merged")
}

/// The readiness of a GitLab MR.
pub fn merge_readiness(details: &PullRequestDetails, is_approved: bool, ci_passed: bool) -> (r:
    MergeReadiness)
    ensures
        r@ == readiness_of(Platform::GitLab, details@, is_approved, ci_passed),
{
    build_readiness(Platform::GitLab, details, is_approved, ci_passed)
}

/// The host as the configuration holds it: none for `gitlab.com`.
pub fn config_host(host: &str) -> (r: Option<String>)
    ensures
        r.deep_view() == (if host@ == "gitlab.com"@ {
            None
        } else {
            Some(host@)
        }),
{
    if str_eq(host, "gitlab.com") {
        None
    } else {
        Some(host.to_owned())
    }
}

/// A note on an MR as GitLab reports it.
#[derive(Debug)]
pub struct MrNote {
    /// The note's id
    pub id: u64,
    /// The note's text
    pub body: String,
    /// Whether GitLab wrote the note itself
    pub system: bool,
}

/// What an [`MrNote`] holds, as plain values.
pub struct MrNoteView {
    pub id: u64,
    pub body: Seq<char>,
    pub system: bool,
}

impl View for MrNote {
    type V = MrNoteView;

    open spec fn view(&self) -> MrNoteView {
        MrNoteView { id: self.id, body: self.body@, system: self.system }
    }
}

impl DeepView for MrNote {
    type V = MrNoteView;

    open spec fn deep_view(&self) -> MrNoteView {
        self@
    }
}

/// The test for a note that a user wrote.
pub open spec fn is_user_note() -> spec_fn(MrNoteView) -> bool {
    |n: MrNoteView| !n.system
}

/// The comment that a note is.
pub open spec fn as_comment() -> spec_fn(MrNoteView) -> PrCommentView {
    |n: MrNoteView| (PrCommentView { id: n.id, body: n.body })
}

/// The comments among the notes of an MR: those that GitLab did not write
/// itself, in their order.
pub fn user_comments(notes: &Vec<MrNote>) -> (r: Vec<PrComment>)
    ensures
        r.deep_view() == notes.deep_view().filter(is_user_note()).map_values(as_comment()),
{
    let ghost all = notes.deep_view();
    let ghost convert = as_comment();
    let mut out: Vec<PrComment> = Vec::new();
    let mut i: usize = 0;
    proof {
        assert(all.take(0) =~= Seq::<MrNoteView>::empty());
        reveal(Seq::filter);
        assert(out.deep_view() =~= all.take(0).filter(is_user_note()).map_values(convert));
    }
    while i < notes.len()
        invariant
            all == notes.deep_view(),
            convert == as_comment(),
            i <= notes@.len(),
            out.deep_view() == all.take(i as int).filter(is_user_note()).map_values(convert),
        decreases notes@.len() - i,
    {
        proof {
            lemma_deep_view_index(*notes, i as int);
            assert(all.take(i + 1) =~= all.take(i as int).push(all[i as int]));
            all.take(i as int).lemma_filter_push(all[i as int], is_user_note());
        }
        if !notes[i].system {
            let ghost before = out;
            let comment = PrComment { id: notes[i].id, body: notes[i].body.clone() };
            out.push(comment);
            proof {
                lemma_deep_view_push(before, out, comment);
                assert(out.deep_view() =~= all.take(i + 1).filter(is_user_note()).map_values(
                    convert,
                ));
            }
        }
        i += 1;
    }
    proof {
        assert(all.take(i as int) =~= all);
    }
    out
}

/// Whether a byte stands for itself in a URL: a letter, a digit, `-`, `.`,
/// `_` or `~`.
pub open spec fn is_unreserved(b: u8) -> bool {
    (0x30 <= b <= 0x39) || (0x41 <= b <= 0x5a) || (0x61 <= b <= 0x7a) || b == 0x2d || b == 0x2e
        || b == 0x5f || b == 0x7e
}

/// The upper-case hexadecimal digit for a value below sixteen.
pub open spec fn hex_digit(d: u8) -> char {
    if d < 10 {
        (0x30 + d) as char
    } else {
        (0x41 + d - 10) as char
    }
}

/// Percent encoding: each unreserved byte as it is, each other byte as `%`
/// and its two hexadecimal digits.
pub open spec fn percent_encoded(bytes: Seq<u8>) -> Seq<char>
    decreases bytes.len(),
{
    if bytes.len() == 0 {
        Seq::empty()
    } else {
        let b = bytes[0];
        (if is_unreserved(b) {
            seq![b as char]
        } else {
            seq!['%', hex_digit(b / 16), hex_digit(b % 16)]
        }) + percent_encoded(bytes.drop_first())
    }
}

/// Percent-encodes a string for use in a URL.
///
/// Calls `urlencoding::encode`, which works on the UTF-8 bytes of the
/// string: it leaves ASCII letters, digits, `-`, `.`, `_` and `~` as they
/// are and writes every other byte as `%` and two upper-case hexadecimal
/// digits.
#[verifier::external_body]
fn url_encode(text: &str) -> (r: String)
    ensures
        r@ == percent_encoded(text.spec_bytes()),
{
    urlencoding::encode(text).into_owned()
}

/// The path of a project: owner, slash, repository.
pub open spec fn project_path_of(owner: Seq<char>, repo: Seq<char>) -> Seq<char> {
    owner + "/"@ + repo
}

/// The path of a project.
pub fn project_path(owner: &str, repo: &str) -> (r: String)
    ensures
        r@ == project_path_of(owner@, repo@),
{
    let mut out = String::new();
    out.append(owner);
    out.append("/");
    out.append(repo);
    proof {
        assert(out@ =~= project_path_of(owner@, repo@));
    }
    out
}

/// The path of a project as it stands in the URLs of the API: percent
/// encoded, so that the slashes of groups are part of one path segment.
pub fn encoded_project(project_path: &str) -> (r: String)
    ensures
        r@ == percent_encoded(vstd::utf8::encode_utf8(project_path@)),
{
    url_encode(project_path)
}

/// The URL of a path of the API on `host`.
pub fn api_url(host: &str, path: &str) -> (r: String)
    ensures
        r@ == "https://"@ + host@ + "/api/v4"@ + path@,
{
    let mut out = String::new();
    out.append("https://");
    out.append(host);
    out.append("/api/v4");
    out.append(path);
    proof {
        assert(out@ =~= "https://"@ + host@ + "/api/v4"@ + path@);
    }
    out
}

/// The message of the commit of a squash merge: the MR's title and number,
/// an empty line, and the MR's description.
pub fn squash_commit_message(title: &str, pr_number: u64, body: Option<&str>) -> (r: String)
    ensures
        r@ == title@ + " (!"@ + decimal(pr_number as nat) + ")\n\n"@ + match body {
            Some(text) => text@,
            None => Seq::empty(),
        },
{
    let mut out = String::new();
    out.append(title);
    out.append(" (!");
    append_decimal(&mut out, pr_number);
    out.append(")\n\n");
    match body {
        Some(text) => out.append(text),
        None => {},
    }
    proof {
        assert(out@ =~= title@ + " (!"@ + decimal(pr_number as nat) + ")\n\n"@ + match body {
            Some(text) => text@,
            None => Seq::empty(),
        });
    }
    out
}

} // verus!
