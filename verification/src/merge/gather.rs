//! Gathering what a merge plan needs to know of the stack's PRs.

use vstd::prelude::*;
use vstd::hash_map::StringHashMap;
use crate::error::Error;
use crate::merge::plan::PrInfo;
use crate::merge::plan::PrInfoMap;
use crate::merge::plan::PrInfoView;
use crate::merge::plan::pr_info_views;
use crate::platform::PlatformService;
use crate::submit::analysis::bookmark_names;
use crate::text::lemma_deep_view_index;
use crate::types::MergeReadiness;
use crate::types::MergeReadinessView;
use crate::types::NarrowedBookmarkSegment;
use crate::types::PullRequest;
use crate::types::PullRequestDetails;
use crate::types::PullRequestDetailsView;

verus! {

/// What was found for the first `k` bookmarks, by name, where `answers[i]`
/// holds the details and the readiness of the open PR of bookmark `i`, or
/// `None` where the bookmark has no open PR. Each entry names its bookmark.
pub open spec fn gathered(
    names: Seq<Seq<char>>,
    answers: Seq<Option<(PullRequestDetailsView, MergeReadinessView)>>,
    k: nat,
) -> Map<Seq<char>, PrInfoView>
    decreases k,
{
    if k == 0 {
        Map::empty()
    } else {
        let before = gathered(names, answers, (k - 1) as nat);
        match answers[k - 1] {
            Some((details, readiness)) => before.insert(
                names[k - 1],
                PrInfoView { bookmark: names[k - 1], details, readiness },
            ),
            None => before,
        }
    }
}

/// Whether `answer` holds the details and the readiness that `platform`
/// gave for the PR `number`.
pub open spec fn pr_gathered<P: PlatformService>(
    platform: &P,
    number: u64,
    answer: Option<(PullRequestDetailsView, MergeReadinessView)>,
) -> bool {
    exists|details: PullRequestDetails, readiness: MergeReadiness|
        #![trigger call_ensures(P::get_pr_details, (platform, number), Ok::<PullRequestDetails, Error>(details)), call_ensures(P::check_merge_readiness, (platform, number), Ok::<MergeReadiness, Error>(readiness))]
        call_ensures(
            P::get_pr_details,
            (platform, number),
            Ok::<PullRequestDetails, Error>(details),
        ) && call_ensures(
            P::check_merge_readiness,
            (platform, number),
            Ok::<MergeReadiness, Error>(readiness),
        ) && answer == Some((details@, readiness@))
}

/// Whether `answer` is what `platform` told of the bookmark `name`: it
/// found no open PR for it and the answer is `None`, or it found one and
/// the answer holds the details and the readiness that it gave for the
/// number of that PR.
pub open spec fn gather_answered<P: PlatformService>(
    platform: &P,
    name: Seq<char>,
    answer: Option<(PullRequestDetailsView, MergeReadinessView)>,
) -> bool {
    exists|text: &str, found: Option<PullRequest>| #[trigger]
        call_ensures(
            P::find_existing_pr,
            (platform, text),
            Ok::<Option<PullRequest>, Error>(found),
        ) && text@ == name && match found {
            Some(pr) => pr_gathered(platform, pr.number, answer),
            None => answer is None,
        }
}

/// Whether the gathering for the PR `number` failed with `error`: in the
/// fetching of the details or, after that went through, of the readiness.
pub open spec fn pr_gather_failed<P: PlatformService>(
    platform: &P,
    number: u64,
    error: Error,
) -> bool {
    call_ensures(P::get_pr_details, (platform, number), Err::<PullRequestDetails, Error>(error))
        || ((exists|details: PullRequestDetails| #[trigger]
        call_ensures(
            P::get_pr_details,
            (platform, number),
            Ok::<PullRequestDetails, Error>(details),
        )) && call_ensures(
        P::check_merge_readiness,
        (platform, number),
        Err::<MergeReadiness, Error>(error),
    ))
}

/// Whether the gathering for the bookmark `name` failed with `error`: in
/// the lookup of the PR, or for the PR that was found.
pub open spec fn gather_failed<P: PlatformService>(
    platform: &P,
    name: Seq<char>,
    error: Error,
) -> bool {
    exists|text: &str| #[trigger]
        text@ == name && (call_ensures(
            P::find_existing_pr,
            (platform, text),
            Err::<Option<PullRequest>, Error>(error),
        ) || exists|pr: PullRequest| #[trigger]
            call_ensures(
                P::find_existing_pr,
                (platform, text),
                Ok::<Option<PullRequest>, Error>(Some(pr)),
            ) && pr_gather_failed(platform, pr.number, error))
}

/// Whether for each of the first `n` bookmarks the entry of `answers` at
/// its place is what `platform` told of it.
pub open spec fn all_gathered<P: PlatformService>(
    platform: &P,
    names: Seq<Seq<char>>,
    answers: Seq<Option<(PullRequestDetailsView, MergeReadinessView)>>,
    n: int,
) -> bool {
    forall|i: int| 0 <= i < n ==> gather_answered(platform, #[trigger] names[i], answers[i])
}

/// Asks `platform` for the PR of each bookmark, and for the details and the
/// readiness of each PR that is found, one bookmark after the other in
/// stack order.
///
/// A bookmark without an open PR gets no entry. Where every call is
/// answered, the result is what [`gathered`] gives for what the platform
/// told of each bookmark. The first call that fails ends the gathering with
/// the error that the platform gave: the bookmarks below were gathered,
/// none above was asked for.
pub fn fetch_all_pr_info<P: PlatformService>(
    segments: &Vec<NarrowedBookmarkSegment>,
    platform: &P,
) -> (r: Result<PrInfoMap, Error>)
    ensures
        match r {
            Ok(found) => exists|answers: Seq<Option<(PullRequestDetailsView, MergeReadinessView)>>|
                answers.len() == segments@.len() && pr_info_views(found@) == #[trigger] gathered(
                    bookmark_names(segments.deep_view()),
                    answers,
                    segments@.len() as nat,
                ) && all_gathered(
                    platform,
                    bookmark_names(segments.deep_view()),
                    answers,
                    segments@.len() as int,
                ),
            Err(e) => exists|
                k: int,
                answers: Seq<Option<(PullRequestDetailsView, MergeReadinessView)>>,
            |
                0 <= k < segments@.len() && gather_failed(
                    platform,
                    bookmark_names(segments.deep_view())[k],
                    e,
                ) && #[trigger] all_gathered(
                    platform,
                    bookmark_names(segments.deep_view()),
                    answers,
                    k,
                ),
        },
{
    let ghost names = bookmark_names(segments.deep_view());
    let ghost mut answers: Seq<Option<(PullRequestDetailsView, MergeReadinessView)>> = Seq::empty();
    let mut found: PrInfoMap = StringHashMap::new();
    let mut i: usize = 0;
    proof {
        assert(pr_info_views(found@) =~= gathered(names, answers, 0));
    }
    while i < segments.len()
        invariant
            names == bookmark_names(segments.deep_view()),
            names.len() == segments@.len(),
            i <= segments@.len(),
            answers.len() == i,
            pr_info_views(found@) == gathered(names, answers, i as nat),
            all_gathered(platform, names, answers, i as int),
        decreases segments@.len() - i,
    {
        let bookmark_name = &segments[i].bookmark.name;
        let text = bookmark_name.as_str();
        let ghost before_answers = answers;
        proof {
            lemma_deep_view_index(*segments, i as int);
            assert(names[i as int] == bookmark_name@);
        }
        let lookup = platform.find_existing_pr(text);
        let existing = match lookup {
            Ok(existing) => existing,
            Err(e) => {
                proof {
                    assert(gather_failed(platform, names[i as int], e));
                }
                return Err(e);
            },
        };
        match existing {
            Some(pr) => {
                let fetched = platform.get_pr_details(pr.number);
                let details = match fetched {
                    Ok(details) => details,
                    Err(e) => {
                        proof {
                            assert(call_ensures(
                                P::find_existing_pr,
                                (platform, text),
                                Ok::<Option<PullRequest>, Error>(Some(pr)),
                            ));
                            assert(pr_gather_failed(platform, pr.number, e));
                            assert(gather_failed(platform, names[i as int], e));
                        }
                        return Err(e);
                    },
                };
                let checked = platform.check_merge_readiness(pr.number);
                let readiness = match checked {
                    Ok(readiness) => readiness,
                    Err(e) => {
                        proof {
                            assert(call_ensures(
                                P::find_existing_pr,
                                (platform, text),
                                Ok::<Option<PullRequest>, Error>(Some(pr)),
                            ));
                            assert(call_ensures(
                                P::get_pr_details,
                                (platform, pr.number),
                                Ok::<PullRequestDetails, Error>(details),
                            ));
                            assert(pr_gather_failed(platform, pr.number, e));
                            assert(gather_failed(platform, names[i as int], e));
                        }
                        return Err(e);
                    },
                };
                let ghost before = found@;
                let info = PrInfo { bookmark: bookmark_name.clone(), details, readiness };
                found.insert(bookmark_name.clone(), info);
                proof {
                    answers = answers.push(Some((details@, readiness@)));
                    assert(pr_info_views(found@) =~= pr_info_views(before).insert(
                        bookmark_name@,
                        info@,
                    ));
                    assert(call_ensures(
                        P::check_merge_readiness,
                        (platform, pr.number),
                        Ok::<MergeReadiness, Error>(readiness),
                    ));
                    assert(pr_gathered(platform, pr.number, answers[i as int]));
                    assert(gather_answered(platform, names[i as int], answers[i as int]));
                }
            },
            None => {
                proof {
                    answers = answers.push(None);
                    assert(gather_answered(platform, names[i as int], answers[i as int]));
                }
            },
        }
        proof {
            lemma_gathered_reads_prefix(names, before_answers, answers, i as nat);
            assert forall|j: int| 0 <= j < i + 1 implies gather_answered(
                platform,
                #[trigger] names[j],
                answers[j],
            ) by {
                if j < i {
                    assert(answers[j] == before_answers[j]);
                }
            }
        }
        i += 1;
    }
    Ok(found)
}

/// What was found for the first `k` bookmarks depends on the answers for
/// those bookmarks alone.
pub proof fn lemma_gathered_reads_prefix(
    names: Seq<Seq<char>>,
    first: Seq<Option<(PullRequestDetailsView, MergeReadinessView)>>,
    second: Seq<Option<(PullRequestDetailsView, MergeReadinessView)>>,
    k: nat,
)
    requires
        forall|i: int| 0 <= i < k ==> first[i] == second[i],
    ensures
        gathered(names, first, k) == gathered(names, second, k),
    decreases k,
{
    if k > 0 {
        lemma_gathered_reads_prefix(names, first, second, (k - 1) as nat);
    }
}

} // verus!
