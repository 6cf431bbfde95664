//! Building the stack from the changes between trunk and the working copy.

use vstd::prelude::*;
use vstd::hash_map::StringHashMap;
use crate::text::lemma_deep_view_index;
use crate::text::lemma_deep_view_push;
use crate::text::str_eq;
use crate::types::Bookmark;
use crate::types::BookmarkMap;
use crate::types::BookmarkSegment;
use crate::types::BookmarkSegmentView;
use crate::types::BookmarkView;
use crate::types::BranchStack;
use crate::types::BranchStackView;
use crate::types::ChangeGraph;
use crate::types::LogEntry;
use crate::types::LogEntryView;

verus! {

/// The test for a bookmark that points at the commit `commit_id`.
pub open spec fn points_at(commit_id: Seq<char>) -> spec_fn(BookmarkView) -> bool {
    |b: BookmarkView| b.commit_id == commit_id
}

/// The bookmarks that point at `change`, in the order of the list.
pub open spec fn bookmarks_at(bookmarks: Seq<BookmarkView>, change: LogEntryView) -> Seq<
    BookmarkView,
> {
    bookmarks.filter(points_at(change.commit_id))
}

/// The changes at the start of `changes` that no bookmark points at.
pub open spec fn unclaimed(changes: Seq<LogEntryView>, bookmarks: Seq<BookmarkView>) -> Seq<
    LogEntryView,
>
    decreases changes.len(),
{
    if changes.len() == 0 || bookmarks_at(bookmarks, changes[0]).len() > 0 {
        Seq::empty()
    } else {
        seq![changes[0]] + unclaimed(changes.drop_first(), bookmarks)
    }
}

/// The segments of the stack, from trunk to leaf.
///
/// `changes` are the changes between trunk and the working copy, newest
/// first. Each change that a bookmark points at is the tip of a segment.
/// The segment holds the bookmarks that point at the tip, and the tip with
/// the changes below it down to the next tip, newest first. Changes above
/// the topmost tip belong to no segment.
pub open spec fn segments_of(changes: Seq<LogEntryView>, bookmarks: Seq<BookmarkView>) -> Seq<
    BookmarkSegmentView,
>
    decreases changes.len(),
{
    if changes.len() == 0 {
        Seq::empty()
    } else {
        let below = segments_of(changes.drop_first(), bookmarks);
        let here = bookmarks_at(bookmarks, changes[0]);
        if here.len() > 0 {
            below.push(
                BookmarkSegmentView {
                    bookmarks: here,
                    changes: seq![changes[0]] + unclaimed(changes.drop_first(), bookmarks),
                },
            )
        } else {
            below
        }
    }
}

/// The stack of the changes, if any of them has a bookmark.
pub open spec fn stack_of(changes: Seq<LogEntryView>, bookmarks: Seq<BookmarkView>) -> Option<
    BranchStackView,
> {
    if segments_of(changes, bookmarks).len() > 0 {
        Some(BranchStackView { segments: segments_of(changes, bookmarks) })
    } else {
        None
    }
}

/// Every segment of a stack has a bookmark, so a stack that is built from
/// changes is well formed.
pub proof fn lemma_segments_have_bookmarks(changes: Seq<LogEntryView>, bookmarks: Seq<BookmarkView>)
    ensures
        forall|i: int|
            0 <= i < segments_of(changes, bookmarks).len() ==> (#[trigger] segments_of(
                changes,
                bookmarks,
            )[i]).bookmarks.len() > 0,
        stack_of(changes, bookmarks) matches Some(stack) ==> stack.well_formed(),
    decreases changes.len(),
{
    if changes.len() > 0 {
        lemma_segments_have_bookmarks(changes.drop_first(), bookmarks);
    }
}

/// The bookmarks that point at the commit `commit_id`.
fn bookmarks_of_commit(bookmarks: &Vec<Bookmark>, commit_id: &str) -> (r: Vec<Bookmark>)
    ensures
        r.deep_view() == bookmarks.deep_view().filter(points_at(commit_id@)),
{
    let ghost all = bookmarks.deep_view();
    let ghost test = points_at(commit_id@);
    let mut out: Vec<Bookmark> = Vec::new();
    let mut i: usize = 0;
    proof {
        assert(all.take(0) =~= Seq::<BookmarkView>::empty());
        reveal(Seq::filter);
        assert(out.deep_view() =~= all.take(0).filter(test));
    }
    while i < bookmarks.len()
        invariant
            all == bookmarks.deep_view(),
            test == points_at(commit_id@),
            i <= bookmarks@.len(),
            out.deep_view() == all.take(i as int).filter(test),
        decreases bookmarks@.len() - i,
    {
        proof {
            lemma_deep_view_index(*bookmarks, i as int);
            assert(all.take(i + 1) =~= all.take(i as int).push(all[i as int]));
            all.take(i as int).lemma_filter_push(all[i as int], test);
        }
        if str_eq(bookmarks[i].commit_id.as_str(), commit_id) {
            let ghost before = out;
            let found = bookmarks[i].clone();
            out.push(found);
            proof {
                lemma_deep_view_push(before, out, found);
            }
        }
        i += 1;
    }
    proof {
        assert(all.take(i as int) =~= all);
    }
    out
}

/// Builds the stack from the changes between trunk and the working copy,
/// newest first, and the local bookmarks.
pub fn build_stack(changes: &Vec<LogEntry>, bookmarks: &Vec<Bookmark>) -> (r: Option<BranchStack>)
    ensures
        r.deep_view() == stack_of(changes.deep_view(), bookmarks.deep_view()),
        r matches Some(stack) ==> stack@.well_formed(),
{
    let ghost all = changes.deep_view();
    let ghost marks = bookmarks.deep_view();
    let mut segments: Vec<BookmarkSegment> = Vec::new();
    // The changes below the one at hand, down to the next tip, newest first.
    let mut run: Vec<LogEntry> = Vec::new();
    let mut i: usize = changes.len();
    proof {
        assert(all.skip(i as int) =~= Seq::<LogEntryView>::empty());
        assert(segments.deep_view() =~= segments_of(all.skip(i as int), marks));
        assert(run.deep_view() =~= unclaimed(all.skip(i as int), marks));
    }
    while i > 0
        invariant
            all == changes.deep_view(),
            marks == bookmarks.deep_view(),
            i <= changes@.len(),
            segments.deep_view() == segments_of(all.skip(i as int), marks),
            run.deep_view() == unclaimed(all.skip(i as int), marks),
        decreases i,
    {
        i -= 1;
        let change = &changes[i];
        proof {
            lemma_deep_view_index(*changes, i as int);
            assert(all.skip(i as int)[0] == change@);
            assert(all.skip(i as int).drop_first() =~= all.skip(i + 1));
        }
        let here = bookmarks_of_commit(bookmarks, change.commit_id.as_str());
        let ghost run_before = run;
        let copy = change.clone();
        run.insert(0, copy);
        proof {
            assert(run.deep_view() =~= seq![change@] + run_before.deep_view());
        }
        if here.len() > 0 {
            let ghost before = segments;
            let segment = BookmarkSegment { bookmarks: here, changes: run };
            segments.push(segment);
            run = Vec::new();
            proof {
                lemma_deep_view_push(before, segments, segment);
                assert(run.deep_view() =~= unclaimed(all.skip(i as int), marks));
            }
        }
    }
    proof {
        assert(all.skip(0) =~= all);
        lemma_segments_have_bookmarks(all, marks);
    }
    if segments.len() > 0 {
        Some(BranchStack { segments })
    } else {
        None
    }
}

/// Whether one of the changes is the commit `commit_id`.
pub open spec fn is_commit_of(changes: Seq<LogEntryView>, commit_id: Seq<char>) -> bool {
    exists|i: int| 0 <= i < changes.len() && (#[trigger] changes[i]).commit_id == commit_id
}

/// Whether one of the changes is the commit `commit_id`.
fn has_commit(changes: &Vec<LogEntry>, commit_id: &str) -> (r: bool)
    ensures
        r == is_commit_of(changes.deep_view(), commit_id@),
{
    let mut i: usize = 0;
    while i < changes.len()
        invariant
            i <= changes@.len(),
            forall|j: int| 0 <= j < i ==> (#[trigger] changes.deep_view()[j]).commit_id != commit_id@,
        decreases changes@.len() - i,
    {
        proof {
            lemma_deep_view_index(*changes, i as int);
        }
        if str_eq(changes[i].commit_id.as_str(), commit_id) {
            proof {
                assert(changes.deep_view()[i as int].commit_id == commit_id@);
            }
            return true;
        }
        i += 1;
    }
    false
}

/// The first `k` bookmarks that point at one of the changes, by name.
/// Where a name occurs twice, the later bookmark stands.
pub open spec fn bookmarks_by_name(
    changes: Seq<LogEntryView>,
    bookmarks: Seq<BookmarkView>,
    k: nat,
) -> Map<Seq<char>, BookmarkView>
    decreases k,
{
    if k == 0 {
        Map::empty()
    } else {
        let before = bookmarks_by_name(changes, bookmarks, (k - 1) as nat);
        let bookmark = bookmarks[k - 1];
        if is_commit_of(changes, bookmark.commit_id) {
            before.insert(bookmark.name, bookmark)
        } else {
            before
        }
    }
}

/// The views of the bookmarks in a map, by name.
pub open spec fn bookmark_views(m: Map<Seq<char>, Bookmark>) -> Map<Seq<char>, BookmarkView> {
    m.map_values(|b: Bookmark| b@)
}

/// How many of the newest changes are not part of a linear history: the
/// oldest merge commit and everything above it. A merge commit is a change
/// with more than one parent.
pub open spec fn merged_above(changes: Seq<LogEntryView>) -> int
    decreases changes.len(),
{
    if changes.len() == 0 {
        0
    } else if changes.last().parents.len() > 1 {
        changes.len() as int
    } else {
        merged_above(changes.drop_last())
    }
}

/// The changes that form a linear history on top of trunk: those below the
/// oldest merge commit.
pub open spec fn linear_changes(changes: Seq<LogEntryView>) -> Seq<LogEntryView> {
    changes.skip(merged_above(changes))
}

/// The test for a bookmark that points at one of `changes`.
pub open spec fn points_into(changes: Seq<LogEntryView>) -> spec_fn(BookmarkView) -> bool {
    |b: BookmarkView| is_commit_of(changes, b.commit_id)
}

/// The number of bookmarks that are left out of the stack because they sit
/// on a merge commit or above one.
pub open spec fn excluded_count(changes: Seq<LogEntryView>, bookmarks: Seq<BookmarkView>) -> nat {
    bookmarks.filter(points_into(changes.take(merged_above(changes)))).len()
}

/// Builds the change graph from the changes between trunk and the working
/// copy, newest first, and the local bookmarks.
///
/// The stack is built from the linear part of the history. The graph holds
/// by name the bookmarks that point into that part, and the number of
/// bookmarks that point at what is left out.
pub fn build_change_graph(changes: &Vec<LogEntry>, bookmarks: &Vec<Bookmark>) -> (r: ChangeGraph)
    ensures
        r.stack.deep_view() == stack_of(
            linear_changes(changes.deep_view()),
            bookmarks.deep_view(),
        ),
        r.stack matches Some(stack) ==> stack@.well_formed(),
        r.excluded_bookmark_count == excluded_count(changes.deep_view(), bookmarks.deep_view()),
        bookmark_views(r.bookmarks@) == bookmarks_by_name(
            linear_changes(changes.deep_view()),
            bookmarks.deep_view(),
            bookmarks@.len(),
        ),
{
    let ghost all = changes.deep_view();
    let n = changes.len();
    // Find the oldest merge commit, which is the last in the list.
    let mut cut: usize = n;
    proof {
        assert(all.take(cut as int) =~= all);
    }
    while cut > 0 && changes[cut - 1].parents.len() <= 1
        invariant
            all == changes.deep_view(),
            n == changes@.len(),
            cut <= n,
            merged_above(all) == merged_above(all.take(cut as int)),
        decreases cut,
    {
        proof {
            lemma_deep_view_index(*changes, cut - 1);
            assert(all.take(cut as int).last() == all[cut - 1]);
            assert(all.take(cut as int).drop_last() =~= all.take(cut - 1));
        }
        cut -= 1;
    }
    proof {
        if cut > 0 {
            lemma_deep_view_index(*changes, cut - 1);
            assert(all.take(cut as int).last() == all[cut - 1]);
        }
        assert(merged_above(all) == cut);
    }
    let mut above: Vec<LogEntry> = Vec::new();
    let mut linear: Vec<LogEntry> = Vec::new();
    let mut i: usize = 0;
    proof {
        assert(above.deep_view() =~= all.take(0));
        assert(linear.deep_view() =~= all.subrange(cut as int, cut as int));
    }
    while i < n
        invariant
            all == changes.deep_view(),
            n == changes@.len(),
            cut <= n,
            i <= n,
            above.deep_view() == all.take(if i <= cut {
                i as int
            } else {
                cut as int
            }),
            linear.deep_view() == all.subrange(
                cut as int,
                if i <= cut {
                    cut as int
                } else {
                    i as int
                },
            ),
        decreases n - i,
    {
        let copy = changes[i].clone();
        proof {
            lemma_deep_view_index(*changes, i as int);
        }
        if i < cut {
            let ghost before = above;
            above.push(copy);
            proof {
                lemma_deep_view_push(before, above, copy);
                assert(above.deep_view() =~= all.take(i + 1));
            }
        } else {
            let ghost before = linear;
            linear.push(copy);
            proof {
                lemma_deep_view_push(before, linear, copy);
                assert(linear.deep_view() =~= all.subrange(cut as int, i + 1));
            }
        }
        i += 1;
    }
    proof {
        assert(linear.deep_view() =~= linear_changes(all));
        assert(above.deep_view() =~= all.take(merged_above(all)));
    }

    let stack = build_stack(&linear, bookmarks);
    let ghost marks = bookmarks.deep_view();
    let ghost outside = points_into(above.deep_view());
    let mut by_name: BookmarkMap = StringHashMap::new();
    let mut excluded: usize = 0;
    let mut k: usize = 0;
    proof {
        assert(bookmark_views(by_name@) =~= bookmarks_by_name(linear.deep_view(), marks, 0));
        assert(marks.take(0) =~= Seq::<BookmarkView>::empty());
        reveal(Seq::filter);
    }
    while k < bookmarks.len()
        invariant
            marks == bookmarks.deep_view(),
            outside == points_into(above.deep_view()),
            k <= bookmarks@.len(),
            excluded <= k,
            excluded == marks.take(k as int).filter(outside).len(),
            bookmark_views(by_name@) == bookmarks_by_name(linear.deep_view(), marks, k as nat),
        decreases bookmarks@.len() - k,
    {
        let bookmark = &bookmarks[k];
        proof {
            lemma_deep_view_index(*bookmarks, k as int);
            assert(marks.take(k + 1) =~= marks.take(k as int).push(marks[k as int]));
            marks.take(k as int).lemma_filter_push(marks[k as int], outside);
        }
        if has_commit(&linear, bookmark.commit_id.as_str()) {
            let ghost before = by_name@;
            let copy = bookmark.clone();
            by_name.insert(bookmark.name.clone(), copy);
            proof {
                assert(bookmark_views(by_name@) =~= bookmark_views(before).insert(
                    bookmark@.name,
                    bookmark@,
                ));
            }
        }
        if has_commit(&above, bookmark.commit_id.as_str()) {
            excluded += 1;
        }
        k += 1;
    }
    proof {
        assert(marks.take(k as int) =~= marks);
    }
    ChangeGraph { bookmarks: by_name, stack, excluded_bookmark_count: excluded }
}

} // verus!
