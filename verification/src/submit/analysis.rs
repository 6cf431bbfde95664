//! Choosing the bookmarks that stand for the stack.

use vstd::prelude::*;
use crate::error::Error;
use crate::error::ErrorView;
use crate::text::contains_name;
use crate::text::ends_with;
use crate::text::lemma_deep_view_index;
use crate::text::lemma_deep_view_push;
use crate::text::lemma_name_precedes_total;
use crate::text::lemma_name_precedes_transitive;
use crate::text::name_precedes;
use crate::text::name_precedes_exec;
use crate::text::starts_with;
use crate::text::str_eq;
use crate::types::Bookmark;
use crate::types::BookmarkMap;
use crate::types::BookmarkSegment;
use crate::types::BookmarkSegmentView;
use crate::types::BookmarkView;
use crate::types::BranchStackView;
use crate::types::ChangeGraph;
use crate::types::NarrowedBookmarkSegment;
use crate::types::NarrowedBookmarkSegmentView;
use crate::types::clone_changes;

verus! {

/// The part of the stack that is to be submitted, one bookmark per segment.
#[derive(Debug)]
pub struct SubmissionAnalysis {
    /// The bookmark up to which the stack is submitted
    pub target_bookmark: String,
    /// Segments from trunk towards the target, each narrowed to one bookmark
    pub segments: Vec<NarrowedBookmarkSegment>,
}

/// What a [`SubmissionAnalysis`] holds, as plain values.
pub struct SubmissionAnalysisView {
    pub target_bookmark: Seq<char>,
    pub segments: Seq<NarrowedBookmarkSegmentView>,
}

impl View for SubmissionAnalysis {
    type V = SubmissionAnalysisView;

    open spec fn view(&self) -> SubmissionAnalysisView {
        SubmissionAnalysisView {
            target_bookmark: self.target_bookmark@,
            segments: self.segments.deep_view(),
        }
    }
}

/// The names of the selected bookmarks, in stack order.
pub open spec fn bookmark_names(segments: Seq<NarrowedBookmarkSegmentView>) -> Seq<Seq<char>> {
    segments.map_values(|s: NarrowedBookmarkSegmentView| s.bookmark.name)
}

/// The name patterns that mark a bookmark as a throwaway.
#[derive(Debug)]
pub struct TemporaryPatterns {
    /// A name that begins with one of these is temporary
    pub prefixes: Vec<String>,
    /// A name that ends with one of these is temporary
    pub suffixes: Vec<String>,
}

/// What a [`TemporaryPatterns`] holds, as plain values.
pub struct TemporaryPatternsView {
    pub prefixes: Seq<Seq<char>>,
    pub suffixes: Seq<Seq<char>>,
}

impl TemporaryPatternsView {
    /// Whether `name` begins with one of the prefixes.
    pub open spec fn matches_prefix(self, name: Seq<char>) -> bool {
        exists|i: int|
            0 <= i < self.prefixes.len() && (#[trigger] self.prefixes[i]).is_prefix_of(name)
    }

    /// Whether `name` ends with one of the suffixes.
    pub open spec fn matches_suffix(self, name: Seq<char>) -> bool {
        exists|i: int|
            0 <= i < self.suffixes.len() && (#[trigger] self.suffixes[i]).is_suffix_of(name)
    }

    /// Whether `name` is a temporary name.
    pub open spec fn matches(self, name: Seq<char>) -> bool {
        self.matches_prefix(name) || self.matches_suffix(name)
    }
}

impl View for TemporaryPatterns {
    type V = TemporaryPatternsView;

    open spec fn view(&self) -> TemporaryPatternsView {
        TemporaryPatternsView {
            prefixes: self.prefixes.deep_view(),
            suffixes: self.suffixes.deep_view(),
        }
    }
}

/// The patterns in use where none are configured: the prefixes `wip-` and
/// `tmp-`, the suffixes `-old` and `-tmp`.
pub open spec fn default_patterns() -> TemporaryPatternsView {
    TemporaryPatternsView { prefixes: seq!["wip-"@, "tmp-"@], suffixes: seq!["-old"@, "-tmp"@] }
}

impl Default for TemporaryPatterns {
    fn default() -> (r: Self)
        ensures
            r@ == default_patterns(),
    {
        let mut prefixes: Vec<String> = Vec::new();
        prefixes.push("wip-".to_owned());
        prefixes.push("tmp-".to_owned());
        let mut suffixes: Vec<String> = Vec::new();
        suffixes.push("-old".to_owned());
        suffixes.push("-tmp".to_owned());
        let r = TemporaryPatterns { prefixes, suffixes };
        proof {
            assert(r@.prefixes =~= default_patterns().prefixes);
            assert(r@.suffixes =~= default_patterns().suffixes);
        }
        r
    }
}

impl TemporaryPatterns {
    /// Whether `name` is a temporary name.
    pub fn matches(&self, name: &str) -> (r: bool)
        ensures
            r == self@.matches(name@),
    {
        let mut i: usize = 0;
        while i < self.prefixes.len()
            invariant
                i <= self.prefixes@.len(),
                forall|j: int| 0 <= j < i ==> !(#[trigger] self@.prefixes[j]).is_prefix_of(name@),
            decreases self.prefixes@.len() - i,
        {
            proof {
                lemma_deep_view_index(self.prefixes, i as int);
                assert(self@.prefixes[i as int] == self.prefixes@[i as int]@);
            }
            if starts_with(name, self.prefixes[i].as_str()) {
                proof {
                    assert(self@.prefixes[i as int].is_prefix_of(name@));
                }
                return true;
            }
            i += 1;
        }
        let mut k: usize = 0;
        while k < self.suffixes.len()
            invariant
                !self@.matches_prefix(name@),
                k <= self.suffixes@.len(),
                forall|j: int| 0 <= j < k ==> !(#[trigger] self@.suffixes[j]).is_suffix_of(name@),
            decreases self.suffixes@.len() - k,
        {
            proof {
                lemma_deep_view_index(self.suffixes, k as int);
                assert(self@.suffixes[k as int] == self.suffixes@[k as int]@);
            }
            if ends_with(name, self.suffixes[k].as_str()) {
                proof {
                    assert(self@.suffixes[k as int].is_suffix_of(name@));
                }
                return true;
            }
            k += 1;
        }
        false
    }
}

/// The names of a segment's bookmarks, in the order in which it lists them.
pub open spec fn segment_names(segment: BookmarkSegmentView) -> Seq<Seq<char>> {
    segment.bookmarks.map_values(|b: BookmarkView| b.name)
}

/// Whether one of the names is durable, that is not temporary.
pub open spec fn any_durable(names: Seq<Seq<char>>, patterns: TemporaryPatternsView) -> bool {
    exists|i: int| 0 <= i < names.len() && !patterns.matches(#[trigger] names[i])
}

/// Whether the name at `i` can be chosen: durable names are preferred, and
/// only where every name is temporary is each of them eligible.
pub open spec fn eligible(names: Seq<Seq<char>>, patterns: TemporaryPatternsView, i: int) -> bool {
    0 <= i < names.len() && (any_durable(names, patterns) ==> !patterns.matches(names[i]))
}

/// The index of the preferred eligible name among the first `n`, or `-1`
/// where none of them is eligible. Of two eligible names the one that
/// precedes the other is preferred; where a name occurs twice, its first
/// occurrence.
pub open spec fn best_index(names: Seq<Seq<char>>, patterns: TemporaryPatternsView, n: nat) -> int
    decreases n,
{
    if n == 0 {
        -1
    } else {
        let before = best_index(names, patterns, (n - 1) as nat);
        let last = n - 1;
        if !eligible(names, patterns, last) {
            before
        } else if before < 0 || name_precedes(names[last], names[before]) {
            last
        } else {
            before
        }
    }
}

/// Whether a target is given and one of the names is that target.
pub open spec fn names_target(names: Seq<Seq<char>>, target: Option<Seq<char>>) -> bool {
    target is Some && names.contains(target.unwrap())
}

/// The index of the bookmark that stands for a segment with these names:
/// the first one named `target` where there is one, else the preferred
/// eligible one.
pub open spec fn selected_index(
    names: Seq<Seq<char>>,
    target: Option<Seq<char>>,
    patterns: TemporaryPatternsView,
) -> int {
    if names_target(names, target) {
        names.index_of_first(target.unwrap()).unwrap()
    } else {
        best_index(names, patterns, names.len())
    }
}

/// The bookmark that stands for a segment.
pub open spec fn selected_bookmark(
    segment: BookmarkSegmentView,
    target: Option<Seq<char>>,
    patterns: TemporaryPatternsView,
) -> BookmarkView {
    segment.bookmarks[selected_index(segment_names(segment), target, patterns)]
}

/// Among the first `n` names the preferred one is eligible, and every other
/// eligible name among them either comes after it in the order of
/// preference or is the same name further back in the list.
pub proof fn lemma_best_index(names: Seq<Seq<char>>, patterns: TemporaryPatternsView, n: nat)
    requires
        n <= names.len(),
    ensures
        ({
            let r = best_index(names, patterns, n);
            &&& -1 <= r < n
            &&& r >= 0 ==> eligible(names, patterns, r)
            &&& forall|j: int|
                0 <= j < n && eligible(names, patterns, j) ==> r >= 0 && (j == r || name_precedes(
                    names[r],
                    #[trigger] names[j],
                ) || (names[j] == names[r] && r < j))
        }),
    decreases n,
{
    if n > 0 {
        let before = best_index(names, patterns, (n - 1) as nat);
        let last = n - 1;
        lemma_best_index(names, patterns, (n - 1) as nat);
        let r = best_index(names, patterns, n);
        if eligible(names, patterns, last) && before >= 0 {
            if name_precedes(names[last], names[before]) {
                assert forall|j: int| 0 <= j < n && eligible(names, patterns, j) implies j == r
                    || name_precedes(names[r], #[trigger] names[j]) || (names[j] == names[r] && r
                    < j) by {
                    if j != last && j != before && name_precedes(names[before], names[j]) {
                        lemma_name_precedes_transitive(names[last], names[before], names[j]);
                    }
                }
            } else if names[last] != names[before] {
                lemma_name_precedes_total(names[last], names[before]);
            }
        }
    }
}

/// Of a segment with at least one bookmark the selected index is that of one
/// of its bookmarks: the first named like the target, or else the one that
/// is eligible and preferred over every other eligible name.
pub proof fn lemma_selected_index(
    names: Seq<Seq<char>>,
    target: Option<Seq<char>>,
    patterns: TemporaryPatternsView,
)
    requires
        names.len() > 0,
    ensures
        ({
            let r = selected_index(names, target, patterns);
            &&& 0 <= r < names.len()
            &&& names_target(names, target) ==> names[r] == target.unwrap() && forall|j: int|
                0 <= j < r ==> names[j] != target.unwrap()
            &&& !names_target(names, target) ==> eligible(names, patterns, r) && forall|j: int|
                eligible(names, patterns, j) ==> j == r || name_precedes(
                    names[r],
                    #[trigger] names[j],
                ) || (names[j] == names[r] && r < j)
        }),
{
    if names_target(names, target) {
        names.index_of_first_ensures(target.unwrap());
    } else {
        lemma_best_index(names, patterns, names.len());
        // Some name is eligible: a durable one, or else any.
        if any_durable(names, patterns) {
            let d = choose|i: int| 0 <= i < names.len() && !patterns.matches(#[trigger] names[i]);
            assert(eligible(names, patterns, d));
        } else {
            assert(eligible(names, patterns, 0));
        }
    }
}

/// The position of the first bookmark named `wanted`, if there is one.
fn find_bookmark(bookmarks: &Vec<Bookmark>, wanted: &str) -> (r: Option<usize>)
    ensures
        match r {
            Some(i) => i < bookmarks@.len() && bookmarks.deep_view().map_values(
                |b: BookmarkView| b.name,
            ).index_of_first(wanted@) == Some(i as int),
            None => bookmarks.deep_view().map_values(|b: BookmarkView| b.name).index_of_first(
                wanted@,
            ) is None,
        },
{
    let ghost names = bookmarks.deep_view().map_values(|b: BookmarkView| b.name);
    let mut i: usize = 0;
    while i < bookmarks.len()
        invariant
            names == bookmarks.deep_view().map_values(|b: BookmarkView| b.name),
            i <= bookmarks@.len(),
            forall|j: int| 0 <= j < i ==> names[j] != wanted@,
        decreases bookmarks@.len() - i,
    {
        proof {
            lemma_deep_view_index(*bookmarks, i as int);
        }
        if str_eq(bookmarks[i].name.as_str(), wanted) {
            proof {
                names.index_of_first_ensures(wanted@);
                assert(names[i as int] == wanted@);
            }
            return Some(i);
        }
        i += 1;
    }
    proof {
        names.index_of_first_ensures(wanted@);
    }
    None
}

/// Picks the bookmark that stands for `segment`, with the given patterns
/// for temporary names.
///
/// A bookmark named like `target` is taken where the segment has one.
/// Otherwise the durable names are preferred over the temporary ones, and
/// among those the shortest name wins, with ties broken by lexicographic
/// order.
pub fn select_bookmark_with(
    segment: &BookmarkSegment,
    target: Option<&str>,
    patterns: &TemporaryPatterns,
) -> (r: Bookmark)
    requires
        segment.bookmarks@.len() > 0,
    ensures
        r@ == selected_bookmark(segment@, target.deep_view(), patterns@),
{
    let ghost names = segment_names(segment@);
    match target {
        Some(wanted) => {
            match find_bookmark(&segment.bookmarks, wanted) {
                Some(found) => {
                    proof {
                        names.index_of_first_ensures(wanted@);
                        lemma_deep_view_index(segment.bookmarks, found as int);
                    }
                    return segment.bookmarks[found].clone();
                },
                None => {
                    proof {
                        names.index_of_first_ensures(wanted@);
                    }
                },
            }
        },
        None => {},
    }
    // Durable names are preferred: see whether there is one.
    let mut durable = false;
    let mut d: usize = 0;
    while d < segment.bookmarks.len()
        invariant
            names == segment_names(segment@),
            names.len() == segment.bookmarks@.len(),
            d <= segment.bookmarks@.len(),
            durable ==> any_durable(names, patterns@),
            !durable ==> forall|j: int| 0 <= j < d ==> patterns@.matches(#[trigger] names[j]),
        decreases segment.bookmarks@.len() - d,
    {
        proof {
            lemma_deep_view_index(segment.bookmarks, d as int);
            assert(names[d as int] == segment.bookmarks@[d as int].name@);
        }
        if !patterns.matches(segment.bookmarks[d].name.as_str()) {
            durable = true;
            proof {
                assert(!patterns@.matches(names[d as int]));
            }
        }
        d += 1;
    }
    assert(durable == any_durable(names, patterns@));

    let mut best: usize = 0;
    let mut found = false;
    let mut i: usize = 0;
    while i < segment.bookmarks.len()
        invariant
            names == segment_names(segment@),
            names.len() == segment.bookmarks@.len(),
            durable == any_durable(names, patterns@),
            i <= segment.bookmarks@.len(),
            found ==> best < i && best == best_index(names, patterns@, i as nat),
            !found ==> best_index(names, patterns@, i as nat) == -1,
        decreases segment.bookmarks@.len() - i,
    {
        proof {
            lemma_deep_view_index(segment.bookmarks, i as int);
            assert(names[i as int] == segment.bookmarks@[i as int].name@);
            if found {
                lemma_deep_view_index(segment.bookmarks, best as int);
                assert(names[best as int] == segment.bookmarks@[best as int].name@);
            }
        }
        let name = segment.bookmarks[i].name.as_str();
        let is_eligible = !durable || !patterns.matches(name);
        if is_eligible {
            if !found || name_precedes_exec(name, segment.bookmarks[best].name.as_str()) {
                best = i;
                found = true;
            }
        }
        i += 1;
    }
    proof {
        lemma_selected_index(names, target.deep_view(), patterns@);
        lemma_deep_view_index(segment.bookmarks, best as int);
    }
    segment.bookmarks[best].clone()
}

/// Picks the bookmark that stands for `segment`, with the default patterns
/// for temporary names.
pub fn select_bookmark_for_segment(segment: &BookmarkSegment, target: Option<&str>) -> (r: Bookmark)
    requires
        segment.bookmarks@.len() > 0,
    ensures
        r@ == selected_bookmark(segment@, target.deep_view(), default_patterns()),
{
    let patterns = TemporaryPatterns::default();
    select_bookmark_with(segment, target, &patterns)
}

/// The index of the first segment that has a bookmark named `wanted`, or
/// the number of segments where none has.
pub open spec fn first_segment_with(segments: Seq<BookmarkSegmentView>, wanted: Seq<char>) -> int
    decreases segments.len(),
{
    if segments.len() == 0 {
        0
    } else if segment_names(segments[0]).contains(wanted) {
        0
    } else {
        1 + first_segment_with(segments.drop_first(), wanted)
    }
}

/// A segment narrowed to the bookmark that stands for it.
pub open spec fn narrowed(
    segment: BookmarkSegmentView,
    target: Option<Seq<char>>,
) -> NarrowedBookmarkSegmentView {
    NarrowedBookmarkSegmentView {
        bookmark: selected_bookmark(segment, target, default_patterns()),
        changes: segment.changes,
    }
}

/// The analysis of a stack: its segments from trunk up to the one that
/// holds the target, each narrowed to one bookmark. Without a target the
/// whole stack is taken, and the leaf's bookmark is the target. A target
/// that no segment holds is an error.
pub open spec fn analysis_of(stack: BranchStackView, target: Option<Seq<char>>) -> Result<
    SubmissionAnalysisView,
    ErrorView,
> {
    let last = match target {
        Some(wanted) => first_segment_with(stack.segments, wanted),
        None => stack.segments.len() - 1,
    };
    if last >= stack.segments.len() {
        Err(ErrorView::BookmarkNotFound(target.unwrap()))
    } else {
        let segments = Seq::new((last + 1) as nat, |i: int| narrowed(stack.segments[i], target));
        Ok(
            SubmissionAnalysisView {
                target_bookmark: match target {
                    Some(wanted) => wanted,
                    None => segments[last].bookmark.name,
                },
                segments,
            },
        )
    }
}

/// The analysis of a graph: that of its stack, or an error where the
/// working copy sits on trunk.
pub open spec fn analysis_of_graph(stack: Option<BranchStackView>, target: Option<Seq<char>>) -> Result<
    SubmissionAnalysisView,
    ErrorView,
> {
    match stack {
        Some(st) => analysis_of(st, target),
        None => Err(ErrorView::NoStack),
    }
}

/// The index of the first segment with a bookmark named `wanted`, or the
/// number of segments.
fn find_target_segment(segments: &Vec<BookmarkSegment>, wanted: &str) -> (r: usize)
    ensures
        r == first_segment_with(segments.deep_view(), wanted@),
        r <= segments@.len(),
{
    let ghost all = segments.deep_view();
    let mut i: usize = 0;
    proof {
        assert(all.skip(0) =~= all);
    }
    while i < segments.len()
        invariant
            all == segments.deep_view(),
            i <= segments@.len(),
            first_segment_with(all, wanted@) == i + first_segment_with(all.skip(i as int), wanted@),
        decreases segments@.len() - i,
    {
        proof {
            lemma_deep_view_index(*segments, i as int);
            assert(all.skip(i as int)[0] == all[i as int]);
            assert(all.skip(i as int).drop_first() =~= all.skip(i + 1));
            segment_names(all[i as int]).index_of_first_ensures(wanted@);
        }
        match find_bookmark(&segments[i].bookmarks, wanted) {
            Some(_) => {
                return i;
            },
            None => {},
        }
        i += 1;
    }
    proof {
        assert(all.skip(i as int) =~= Seq::<BookmarkSegmentView>::empty());
    }
    i
}

/// Works out which part of the stack is to be submitted.
///
/// With a target, the stack is cut after the first segment that holds a
/// bookmark of that name. Each segment is narrowed to the bookmark that
/// stands for it (see [`select_bookmark_for_segment`]).
pub fn analyze_submission(graph: &ChangeGraph, target_bookmark: Option<&str>) -> (r: Result<
    SubmissionAnalysis,
    Error,
>)
    requires
        graph.stack matches Some(st) ==> st@.well_formed(),
    ensures
        match r {
            Ok(a) => analysis_of_graph(graph.stack.deep_view(), target_bookmark.deep_view()) == Ok::<
                SubmissionAnalysisView,
                ErrorView,
            >(a@),
            Err(e) => analysis_of_graph(graph.stack.deep_view(), target_bookmark.deep_view())
                == Err::<SubmissionAnalysisView, ErrorView>(e@),
        },
{
    let stack = match &graph.stack {
        Some(st) => st,
        None => {
            return Err(Error::NoStack);
        },
    };
    let ghost target = target_bookmark.deep_view();
    let last: usize = match target_bookmark {
        Some(wanted) => {
            let found = find_target_segment(&stack.segments, wanted);
            if found >= stack.segments.len() {
                return Err(Error::BookmarkNotFound(wanted.to_owned()));
            }
            found
        },
        None => stack.segments.len() - 1,
    };
    let mut segments: Vec<NarrowedBookmarkSegment> = Vec::new();
    let count: usize = last + 1;
    let mut i: usize = 0;
    while i < count
        invariant
            stack@.well_formed(),
            target == target_bookmark.deep_view(),
            count == last + 1,
            last < stack.segments@.len(),
            i <= count,
            segments@.len() == i,
            forall|j: int|
                0 <= j < i ==> (#[trigger] segments@[j])@ == narrowed(stack@.segments[j], target),
        decreases count - i,
    {
        proof {
            lemma_deep_view_index(stack.segments, i as int);
            assert(stack@.segments[i as int].bookmarks.len() > 0);
        }
        let segment = &stack.segments[i];
        let bookmark = select_bookmark_for_segment(segment, target_bookmark);
        segments.push(NarrowedBookmarkSegment { bookmark, changes: clone_changes(&segment.changes) });
        i += 1;
    }
    let target_name = match target_bookmark {
        Some(wanted) => wanted.to_owned(),
        None => segments[last].bookmark.name.clone(),
    };
    let analysis = SubmissionAnalysis { target_bookmark: target_name, segments };
    proof {
        let expected = Seq::new((last + 1) as nat, |i: int| narrowed(stack@.segments[i], target));
        assert(analysis@.segments =~= expected);
    }
    Ok(analysis)
}

/// The position of the first segment whose bookmark is named `wanted`, if
/// there is one.
fn find_segment(segments: &Vec<NarrowedBookmarkSegment>, wanted: &str) -> (r: Option<usize>)
    ensures
        match r {
            Some(i) => i < segments@.len() && bookmark_names(segments.deep_view()).index_of_first(
                wanted@,
            ) == Some(i as int),
            None => bookmark_names(segments.deep_view()).index_of_first(wanted@) is None,
        },
{
    let ghost names = bookmark_names(segments.deep_view());
    let mut i: usize = 0;
    while i < segments.len()
        invariant
            names == bookmark_names(segments.deep_view()),
            i <= segments@.len(),
            forall|j: int| 0 <= j < i ==> names[j] != wanted@,
        decreases segments@.len() - i,
    {
        proof {
            lemma_deep_view_index(*segments, i as int);
        }
        if str_eq(segments[i].bookmark.name.as_str(), wanted) {
            proof {
                names.index_of_first_ensures(wanted@);
                assert(names[i as int] == wanted@);
            }
            return Some(i);
        }
        i += 1;
    }
    proof {
        names.index_of_first_ensures(wanted@);
    }
    None
}

/// The branch that the PR of `bookmark` is based on: the default branch for
/// the first bookmark of the stack, the bookmark below for each other one.
pub open spec fn base_branch(
    names: Seq<Seq<char>>,
    bookmark: Seq<char>,
    default_branch: Seq<char>,
) -> Result<Seq<char>, ErrorView> {
    match names.index_of_first(bookmark) {
        Some(i) => Ok(
            if i == 0 {
                default_branch
            } else {
                names[i - 1]
            },
        ),
        None => Err(ErrorView::BookmarkNotFound(bookmark)),
    }
}

/// The base branch for the PR of `bookmark_name`.
pub fn get_base_branch(
    bookmark_name: &str,
    segments: &Vec<NarrowedBookmarkSegment>,
    default_branch: &str,
) -> (r: Result<String, Error>)
    ensures
        match r {
            Ok(base) => base_branch(
                bookmark_names(segments.deep_view()),
                bookmark_name@,
                default_branch@,
            ) == Ok::<Seq<char>, ErrorView>(base@),
            Err(e) => base_branch(
                bookmark_names(segments.deep_view()),
                bookmark_name@,
                default_branch@,
            ) == Err::<Seq<char>, ErrorView>(e@),
        },
{
    match find_segment(segments, bookmark_name) {
        Some(i) => {
            if i == 0 {
                Ok(default_branch.to_owned())
            } else {
                proof {
                    lemma_deep_view_index(*segments, i - 1);
                }
                Ok(segments[i - 1].bookmark.name.clone())
            }
        },
        None => Err(Error::BookmarkNotFound(bookmark_name.to_owned())),
    }
}

/// The title for the PR of a segment: the first line of the description of
/// its root change, that is the oldest one, or the bookmark's name where
/// that line is empty or the segment has no change.
pub open spec fn segment_title(segment: NarrowedBookmarkSegmentView) -> Seq<char> {
    if segment.changes.len() > 0 && segment.changes.last().description_first_line.len() > 0 {
        segment.changes.last().description_first_line
    } else {
        segment.bookmark.name
    }
}

/// The title for the PR of `bookmark`.
pub open spec fn pr_title(segments: Seq<NarrowedBookmarkSegmentView>, bookmark: Seq<char>) -> Result<
    Seq<char>,
    ErrorView,
> {
    match bookmark_names(segments).index_of_first(bookmark) {
        Some(i) => Ok(segment_title(segments[i])),
        None => Err(ErrorView::BookmarkNotFound(bookmark)),
    }
}

/// The title for the PR of one segment.
pub fn title_of_segment(segment: &NarrowedBookmarkSegment) -> (r: String)
    ensures
        r@ == segment_title(segment@),
{
    let n = segment.changes.len();
    if n > 0 {
        proof {
            lemma_deep_view_index(segment.changes, n - 1);
        }
        let line = &segment.changes[n - 1].description_first_line;
        if !line.as_str().is_empty() {
            return line.clone();
        }
    }
    segment.bookmark.name.clone()
}

/// The title for the PR of `bookmark_name`.
pub fn generate_pr_title(bookmark_name: &str, segments: &Vec<NarrowedBookmarkSegment>) -> (r: Result<
    String,
    Error,
>)
    ensures
        match r {
            Ok(title) => pr_title(segments.deep_view(), bookmark_name@) == Ok::<
                Seq<char>,
                ErrorView,
            >(title@),
            Err(e) => pr_title(segments.deep_view(), bookmark_name@) == Err::<Seq<char>, ErrorView>(
                e@,
            ),
        },
{
    match find_segment(segments, bookmark_name) {
        Some(i) => {
            proof {
                lemma_deep_view_index(*segments, i as int);
            }
            Ok(title_of_segment(&segments[i]))
        },
        None => Err(Error::BookmarkNotFound(bookmark_name.to_owned())),
    }
}

/// The test for a segment whose bookmark is one of `kept_names`.
pub open spec fn is_tracked(kept_names: Seq<Seq<char>>) -> spec_fn(NarrowedBookmarkSegmentView) -> bool {
    |s: NarrowedBookmarkSegmentView| kept_names.contains(s.bookmark.name)
}

impl SubmissionAnalysis {
    /// Drops the segments whose bookmark is not one of `kept_names`. The others
    /// keep their order.
    pub fn retain_tracked(&mut self, kept_names: &Vec<String>)
        ensures
            final(self)@.target_bookmark == old(self)@.target_bookmark,
            final(self)@.segments == old(self)@.segments.filter(is_tracked(kept_names.deep_view())),
    {
        let ghost all = self.segments.deep_view();
        let ghost pred = is_tracked(kept_names.deep_view());
        let mut kept: Vec<NarrowedBookmarkSegment> = Vec::new();
        let mut i: usize = 0;
        proof {
            assert(all.take(0) =~= Seq::<NarrowedBookmarkSegmentView>::empty());
            reveal(Seq::filter);
            assert(kept.deep_view() =~= all.take(0).filter(pred));
        }
        while i < self.segments.len()
            invariant
                all == self.segments.deep_view(),
                pred == is_tracked(kept_names.deep_view()),
                i <= self.segments@.len(),
                kept.deep_view() == all.take(i as int).filter(pred),
            decreases self.segments@.len() - i,
        {
            proof {
                lemma_deep_view_index(self.segments, i as int);
                assert(all.take(i + 1) =~= all.take(i as int).push(all[i as int]));
                all.take(i as int).lemma_filter_push(all[i as int], pred);
            }
            if contains_name(kept_names, self.segments[i].bookmark.name.as_str()) {
                let ghost before = kept;
                let segment = self.segments[i].clone();
                kept.push(segment);
                proof {
                    lemma_deep_view_push(before, kept, segment);
                }
            }
            i += 1;
        }
        proof {
            assert(all.take(i as int) =~= all);
        }
        self.segments = kept;
    }
}

} // verus!
