//! The stack comment: the comment on each PR of a stack that lists the
//! whole stack and carries it as a data block.

use vstd::prelude::*;
use vstd::string::StringExecFns;
use crate::error::Error;
use crate::error::ErrorView;
use crate::submit::codec::field;
use crate::submit::codec::lemma_parse_decimal;
use crate::submit::codec::lemma_take_field;
use crate::submit::codec::lemma_take_field_shrinks;
use crate::submit::codec::parse_u64;
use crate::submit::codec::push_field;
use crate::submit::codec::push_number_field;
use crate::submit::codec::read_field;
use crate::submit::codec::read_number;
use crate::submit::codec::take_field;
use crate::submit::plan::SubmissionPlan;
use crate::text::append_decimal;
use crate::text::decimal;
use crate::text::first_index_of;
use crate::text::lemma_deep_view_index;
use crate::text::lemma_deep_view_push;
use crate::text::string_from_chars;
use crate::text::to_chars;
use crate::types::NarrowedBookmarkSegmentView;
use crate::types::PullRequestMap;
use crate::types::PullRequestView;
use crate::types::pull_request_views;

verus! {

/// One PR of the stack, as the comment shows it.
#[derive(Debug, PartialEq, Eq)]
pub struct StackItem {
    /// The bookmark that is the PR's head
    pub bookmark_name: String,
    /// The PR's web URL
    pub pr_url: String,
    /// The PR's number
    pub pr_number: u64,
    /// The PR's title
    pub pr_title: String,
}

/// What a [`StackItem`] holds, as plain values.
pub struct StackItemView {
    pub bookmark_name: Seq<char>,
    pub pr_url: Seq<char>,
    pub pr_number: u64,
    pub pr_title: Seq<char>,
}

impl View for StackItem {
    type V = StackItemView;

    open spec fn view(&self) -> StackItemView {
        StackItemView {
            bookmark_name: self.bookmark_name@,
            pr_url: self.pr_url@,
            pr_number: self.pr_number,
            pr_title: self.pr_title@,
        }
    }
}

impl DeepView for StackItem {
    type V = StackItemView;

    open spec fn deep_view(&self) -> StackItemView {
        self@
    }
}

/// The stack as a comment carries it.
#[derive(Debug, PartialEq, Eq)]
pub struct StackCommentData {
    /// The version of the format
    pub version: u8,
    /// The PRs of the stack, from trunk to leaf
    pub stack: Vec<StackItem>,
    /// The branch that the stack sits on
    pub base_branch: String,
}

/// What a [`StackCommentData`] holds, as plain values.
pub struct StackCommentDataView {
    pub version: u8,
    pub stack: Seq<StackItemView>,
    pub base_branch: Seq<char>,
}

impl View for StackCommentData {
    type V = StackCommentDataView;

    open spec fn view(&self) -> StackCommentDataView {
        StackCommentDataView {
            version: self.version,
            stack: self.stack.deep_view(),
            base_branch: self.base_branch@,
        }
    }
}

impl DeepView for StackCommentData {
    type V = StackCommentDataView;

    open spec fn deep_view(&self) -> StackCommentDataView {
        self@
    }
}

/// One PR of the stack as it stands in the data block: four fields.
pub open spec fn encode_item(item: StackItemView) -> Seq<char> {
    field(item.bookmark_name) + field(decimal(item.pr_number as nat)) + field(item.pr_url) + field(
        item.pr_title,
    )
}

/// The PRs of the stack as they stand in the data block, one after the
/// other.
pub open spec fn encode_items(items: Seq<StackItemView>) -> Seq<char>
    decreases items.len(),
{
    if items.len() == 0 {
        Seq::empty()
    } else {
        encode_item(items[0]) + encode_items(items.drop_first())
    }
}

/// The data block of a stack: the version, the base branch, and the PRs
/// from trunk to leaf.
pub open spec fn encode_block(data: StackCommentDataView) -> Seq<char> {
    field(decimal(data.version as nat)) + field(data.base_branch) + encode_items(data.stack)
}

/// Reads one PR off the start of `text`: the PR and what follows it.
pub open spec fn parse_item(text: Seq<char>) -> Option<(StackItemView, Seq<char>)> {
    match take_field(text) {
        Some((bookmark_name, after_name)) => match take_field(after_name) {
            Some((number, after_number)) => match take_field(after_number) {
                Some((pr_url, after_url)) => match take_field(after_url) {
                    Some((pr_title, rest)) => match parse_u64(number) {
                        Some(pr_number) => Some(
                            (StackItemView { bookmark_name, pr_url, pr_number, pr_title }, rest),
                        ),
                        None => None,
                    },
                    None => None,
                },
                None => None,
            },
            None => None,
        },
        None => None,
    }
}

/// Reading a PR takes at least its commas off the text.
pub proof fn lemma_parse_item_shrinks(text: Seq<char>)
    ensures
        parse_item(text) matches Some((_, rest)) ==> rest.len() < text.len(),
{
    lemma_take_field_shrinks(text);
    match take_field(text) {
        Some((_, r1)) => {
            lemma_take_field_shrinks(r1);
            match take_field(r1) {
                Some((_, r2)) => {
                    lemma_take_field_shrinks(r2);
                    match take_field(r2) {
                        Some((_, r3)) => {
                            lemma_take_field_shrinks(r3);
                        },
                        None => {},
                    }
                },
                None => {},
            }
        },
        None => {},
    }
}

/// Reads PRs off `text` until nothing is left.
pub open spec fn parse_items(text: Seq<char>) -> Option<Seq<StackItemView>>
    decreases text.len(),
{
    if text.len() == 0 {
        Some(Seq::empty())
    } else {
        match parse_item(text) {
            Some((item, rest)) => {
                proof {
                    lemma_parse_item_shrinks(text);
                }
                match parse_items(rest) {
                    Some(items) => Some(seq![item] + items),
                    None => None,
                }
            },
            None => None,
        }
    }
}

/// Reads a data block: there is a stack where the text is a version that
/// fits in eight bits, a base branch, and then PRs to the end.
pub open spec fn parse_block(text: Seq<char>) -> Option<StackCommentDataView> {
    match take_field(text) {
        Some((version, after_version)) => match take_field(after_version) {
            Some((base_branch, rest)) => match (parse_u64(version), parse_items(rest)) {
                (Some(v), Some(stack)) => if v <= u8::MAX {
                    Some(StackCommentDataView { version: v as u8, stack, base_branch })
                } else {
                    None
                },
                _ => None,
            },
            None => None,
        },
        None => None,
    }
}

/// A PR that was written is read back as it was.
pub proof fn lemma_item_round_trip(item: StackItemView, rest: Seq<char>)
    ensures
        parse_item(encode_item(item) + rest) == Some((item, rest)),
{
    let number = decimal(item.pr_number as nat);
    let after_title = rest;
    let after_url = field(item.pr_title) + after_title;
    let after_number = field(item.pr_url) + after_url;
    let after_name = field(number) + after_number;
    assert(encode_item(item) + rest =~= field(item.bookmark_name) + after_name);
    lemma_take_field(item.bookmark_name, after_name);
    lemma_take_field(number, after_number);
    lemma_take_field(item.pr_url, after_url);
    lemma_take_field(item.pr_title, after_title);
    lemma_parse_decimal(item.pr_number as nat);
}

/// PRs that were written are read back as they were, in their order.
pub proof fn lemma_items_round_trip(items: Seq<StackItemView>)
    ensures
        parse_items(encode_items(items)) == Some(items),
    decreases items.len(),
{
    if items.len() > 0 {
        let rest = encode_items(items.drop_first());
        lemma_item_round_trip(items[0], rest);
        lemma_items_round_trip(items.drop_first());
        assert(encode_item(items[0]).len() > 0);
        assert(seq![items[0]] + items.drop_first() =~= items);
    }
}

/// Round trip: the data block of a stack is read back as that stack, with
/// the same PRs in the same order, the same base branch and the same
/// version.
pub proof fn lemma_block_round_trip(data: StackCommentDataView)
    ensures
        parse_block(encode_block(data)) == Some(data),
{
    let version = decimal(data.version as nat);
    let items = encode_items(data.stack);
    let after_version = field(data.base_branch) + items;
    assert(encode_block(data) =~= field(version) + after_version);
    lemma_take_field(version, after_version);
    lemma_take_field(data.base_branch, items);
    lemma_parse_decimal(data.version as nat);
    lemma_items_round_trip(data.stack);
}

/// Writes the data block of a stack.
pub fn encode_stack_data(data: &StackCommentData) -> (r: String)
    ensures
        r@ == encode_block(data@),
{
    let mut out: Vec<char> = Vec::new();
    push_number_field(&mut out, data.version as u64);
    let base = to_chars(data.base_branch.as_str());
    push_field(&mut out, &base);
    let ghost head = out@;
    let ghost items = data@.stack;
    let mut i: usize = 0;
    proof {
        assert(items.skip(0) =~= items);
    }
    while i < data.stack.len()
        invariant
            items == data.stack.deep_view(),
            i <= data.stack@.len(),
            out@ + encode_items(items.skip(i as int)) == head + encode_items(items),
        decreases data.stack@.len() - i,
    {
        let item = &data.stack[i];
        let ghost before = out@;
        proof {
            lemma_deep_view_index(data.stack, i as int);
            assert(items.skip(i as int)[0] == item@);
            assert(items.skip(i as int).drop_first() =~= items.skip(i + 1));
        }
        let name = to_chars(item.bookmark_name.as_str());
        push_field(&mut out, &name);
        push_number_field(&mut out, item.pr_number);
        let url = to_chars(item.pr_url.as_str());
        push_field(&mut out, &url);
        let title = to_chars(item.pr_title.as_str());
        push_field(&mut out, &title);
        proof {
            assert(out@ =~= before + encode_item(item@));
            assert(out@ + encode_items(items.skip(i + 1)) =~= before + encode_items(
                items.skip(i as int),
            ));
        }
        i += 1;
    }
    proof {
        assert(items.skip(i as int) =~= Seq::<StackItemView>::empty());
        assert(out@ =~= encode_block(data@));
    }
    string_from_chars(&out)
}

/// Reads the PR that starts at `start`, and gives the position behind it.
fn read_item(text: &Vec<char>, start: usize) -> (r: Option<(StackItem, usize)>)
    requires
        start <= text@.len(),
    ensures
        match r {
            Some((item, next)) => start < next <= text@.len() && parse_item(
                text@.skip(start as int),
            ) == Some((item@, text@.skip(next as int))),
            None => parse_item(text@.skip(start as int)) is None,
        },
{
    let (name, after_name) = match read_field(text, start) {
        Some(found) => found,
        None => {
            return None;
        },
    };
    let (number, after_number) = match read_field(text, after_name) {
        Some(found) => found,
        None => {
            return None;
        },
    };
    let (url, after_url) = match read_field(text, after_number) {
        Some(found) => found,
        None => {
            return None;
        },
    };
    let (title, next) = match read_field(text, after_url) {
        Some(found) => found,
        None => {
            return None;
        },
    };
    let pr_number = match read_number(&number) {
        Some(n) => n,
        None => {
            return None;
        },
    };
    let item = StackItem {
        bookmark_name: string_from_chars(&name),
        pr_url: string_from_chars(&url),
        pr_number,
        pr_title: string_from_chars(&title),
    };
    Some((item, next))
}

/// Reads a data block.
pub fn decode_stack_data(block: &str) -> (r: Option<StackCommentData>)
    ensures
        r.deep_view() == parse_block(block@),
{
    let text = to_chars(block);
    decode_chars(&text)
}

/// Reads a data block from its characters.
fn decode_chars(text: &Vec<char>) -> (r: Option<StackCommentData>)
    ensures
        r.deep_view() == parse_block(text@),
{
    proof {
        assert(text@.skip(0) =~= text@);
    }
    let (version_text, after_version) = match read_field(text, 0) {
        Some(found) => found,
        None => {
            return None;
        },
    };
    let (base, after_base) = match read_field(text, after_version) {
        Some(found) => found,
        None => {
            return None;
        },
    };
    let version = read_number(&version_text);
    let ghost items_text = text@.skip(after_base as int);
    let mut stack: Vec<StackItem> = Vec::new();
    let mut at: usize = after_base;
    let n = text.len();
    proof {
        match parse_items(text@.skip(at as int)) {
            Some(rest_items) => {
                assert(stack.deep_view() + rest_items =~= rest_items);
            },
            None => {},
        }
    }
    while at < n
        invariant
            n == text@.len(),
            at <= n,
            items_text == text@.skip(after_base as int),
            take_field(text@) == Some((version_text@, text@.skip(after_version as int))),
            take_field(text@.skip(after_version as int)) == Some((base@, items_text)),
            parse_items(items_text) == (match parse_items(text@.skip(at as int)) {
                Some(rest_items) => Some(stack.deep_view() + rest_items),
                None => None,
            }),
        decreases n - at,
    {
        let ghost before = stack;
        let (item, next) = match read_item(text, at) {
            Some(found) => found,
            None => {
                proof {
                    assert(text@.skip(at as int).len() > 0);
                    assert(parse_items(text@.skip(at as int)) is None);
                }
                return None;
            },
        };
        proof {
            assert(text@.skip(at as int).len() > 0);
        }
        stack.push(item);
        proof {
            lemma_deep_view_push(before, stack, item);
            match parse_items(text@.skip(next as int)) {
                Some(rest_items) => {
                    assert(stack.deep_view() + rest_items =~= before.deep_view() + (seq![item@]
                        + rest_items));
                },
                None => {},
            }
        }
        at = next;
    }
    proof {
        assert(text@.skip(n as int).len() == 0);
        assert(stack.deep_view() + Seq::<StackItemView>::empty() =~= stack.deep_view());
    }
    match version {
        Some(v) => {
            if v <= 255 {
                Some(
                    StackCommentData {
                        version: v as u8,
                        stack,
                        base_branch: string_from_chars(&base),
                    },
                )
            } else {
                None
            }
        },
        None => None,
    }
}

/// What opens the data block in a comment.
pub const COMMENT_DATA_PREFIX: &'static str = "<!--- JJ-RYU_STACK: ";

/// What closes the data block in a comment.
pub const COMMENT_DATA_POSTFIX: &'static str = " --->";

/// The mark behind the PR that the comment stands on.
pub const STACK_COMMENT_THIS_PR: &'static str = "👈";

/// The version of the data block's format.
pub const STACK_COMMENT_VERSION: u8 = 1;

/// The PR of one bookmark as the comment shows it.
pub open spec fn item_of(name: Seq<char>, pr: PullRequestView) -> StackItemView {
    StackItemView { bookmark_name: name, pr_url: pr.html_url, pr_number: pr.number, pr_title: pr.title }
}

/// The PRs of the stack's bookmarks, from trunk to leaf. A bookmark without
/// a PR is left out.
pub open spec fn stack_items(
    segments: Seq<NarrowedBookmarkSegmentView>,
    prs: Map<Seq<char>, PullRequestView>,
) -> Seq<StackItemView>
    decreases segments.len(),
{
    if segments.len() == 0 {
        Seq::empty()
    } else {
        let below = stack_items(segments.drop_last(), prs);
        let name = segments.last().bookmark.name;
        if prs.contains_key(name) {
            below.push(item_of(name, prs[name]))
        } else {
            below
        }
    }
}

/// Puts together what the stack comment of a plan carries: the PRs of the
/// plan's bookmarks in stack order, on the plan's default branch.
pub fn build_stack_comment_data(plan: &SubmissionPlan, bookmark_to_pr: &PullRequestMap) -> (r:
    StackCommentData)
    ensures
        r@ == (StackCommentDataView {
            version: STACK_COMMENT_VERSION,
            stack: stack_items(plan@.segments, pull_request_views(bookmark_to_pr@)),
            base_branch: plan@.default_branch,
        }),
{
    let ghost segments = plan@.segments;
    let ghost prs = pull_request_views(bookmark_to_pr@);
    let mut stack: Vec<StackItem> = Vec::new();
    let mut i: usize = 0;
    proof {
        assert(segments.take(0) =~= Seq::<NarrowedBookmarkSegmentView>::empty());
        assert(stack.deep_view() =~= stack_items(segments.take(0), prs));
    }
    while i < plan.segments.len()
        invariant
            segments == plan.segments.deep_view(),
            prs == pull_request_views(bookmark_to_pr@),
            i <= plan.segments@.len(),
            stack.deep_view() == stack_items(segments.take(i as int), prs),
        decreases plan.segments@.len() - i,
    {
        let name = &plan.segments[i].bookmark.name;
        proof {
            lemma_deep_view_index(plan.segments, i as int);
            assert(segments.take(i + 1).drop_last() =~= segments.take(i as int));
            assert(segments.take(i + 1).last() == segments[i as int]);
        }
        match bookmark_to_pr.get(name.as_str()) {
            Some(pr) => {
                let ghost before = stack;
                let item = StackItem {
                    bookmark_name: name.clone(),
                    pr_url: pr.html_url.clone(),
                    pr_number: pr.number,
                    pr_title: pr.title.clone(),
                };
                stack.push(item);
                proof {
                    lemma_deep_view_push(before, stack, item);
                    assert(prs[name@] == pr@);
                }
            },
            None => {},
        }
        i += 1;
    }
    proof {
        assert(segments.take(i as int) =~= segments);
    }
    StackCommentData {
        version: STACK_COMMENT_VERSION,
        stack,
        base_branch: plan.default_branch.clone(),
    }
}

/// The line of one PR in the comment. The PR that the comment stands on is
/// set in bold and marked; each other one is a link.
pub open spec fn comment_line(item: StackItemView, current: bool) -> Seq<char> {
    if current {
        "* **"@ + item.pr_title + " #"@ + decimal(item.pr_number as nat) + " "@
            + STACK_COMMENT_THIS_PR@ + "**\n"@
    } else {
        "* ["@ + item.pr_title + " #"@ + decimal(item.pr_number as nat) + "]("@ + item.pr_url
            + ")\n"@
    }
}

/// The first `k` lines of the comment. The list is leaf-first: line `j` is
/// that of the PR `j` places below the leaf.
pub open spec fn comment_lines(stack: Seq<StackItemView>, current: int, k: nat) -> Seq<char>
    decreases k,
{
    if k == 0 {
        Seq::empty()
    } else {
        comment_lines(stack, current, (k - 1) as nat) + comment_line(
            stack[stack.len() - k],
            stack.len() - k == current,
        )
    }
}

/// What follows the list of PRs: the base branch and a note.
pub open spec fn comment_footer(base_branch: Seq<char>) -> Seq<char> {
    "* `"@ + base_branch
        + "`\n\n---\nThis stack of pull requests is managed by [jj-ryu](https://github.com/dmmulroy/jj-ryu)."@
}

/// The body of the stack comment on the PR at `current`: the data block,
/// then the PRs of the stack leaf-first, then the base branch.
pub open spec fn comment_body(data: StackCommentDataView, current: int) -> Seq<char> {
    COMMENT_DATA_PREFIX@ + encode_block(data) + COMMENT_DATA_POSTFIX@ + "\n"@ + comment_lines(
        data.stack,
        current,
        data.stack.len(),
    ) + comment_footer(data.base_branch)
}

/// Appends the line of one PR to `out`.
fn append_comment_line(out: &mut String, item: &StackItem, current: bool)
    ensures
        final(out)@ == old(out)@ + comment_line(item@, current),
{
    if current {
        out.append("* **");
        out.append(item.pr_title.as_str());
        out.append(" #");
        append_decimal(out, item.pr_number);
        out.append(" ");
        out.append(STACK_COMMENT_THIS_PR);
        out.append("**\n");
    } else {
        out.append("* [");
        out.append(item.pr_title.as_str());
        out.append(" #");
        append_decimal(out, item.pr_number);
        out.append("](");
        out.append(item.pr_url.as_str());
        out.append(")\n");
    }
    proof {
        assert(final(out)@ =~= old(out)@ + comment_line(item@, current));
    }
}

/// Writes the body of the stack comment for the PR at `current_idx` of the
/// stack. An index outside the stack is an error.
pub fn format_stack_comment(data: &StackCommentData, current_idx: usize) -> (r: Result<
    String,
    Error,
>)
    ensures
        match r {
            Ok(body) => current_idx < data@.stack.len() && body@ == comment_body(
                data@,
                current_idx as int,
            ),
            Err(e) => current_idx >= data@.stack.len() && e@ == ErrorView::Internal(
                "stack comment: no PR at the given index"@,
            ),
        },
{
    let n = data.stack.len();
    if current_idx >= n {
        return Err(Error::Internal("stack comment: no PR at the given index".to_owned()));
    }
    let mut out = String::new();
    out.append(COMMENT_DATA_PREFIX);
    out.append(encode_stack_data(data).as_str());
    out.append(COMMENT_DATA_POSTFIX);
    out.append("\n");
    let ghost head = out@;
    let ghost stack = data@.stack;
    let mut k: usize = 0;
    proof {
        assert(out@ =~= head + comment_lines(stack, current_idx as int, 0));
    }
    while k < n
        invariant
            n == data.stack@.len(),
            stack == data.stack.deep_view(),
            k <= n,
            out@ == head + comment_lines(stack, current_idx as int, k as nat),
        decreases n - k,
    {
        let at = n - 1 - k;
        proof {
            lemma_deep_view_index(data.stack, at as int);
        }
        append_comment_line(&mut out, &data.stack[at], at == current_idx);
        proof {
            assert(out@ =~= head + comment_lines(stack, current_idx as int, (k + 1) as nat));
        }
        k += 1;
    }
    out.append("* `");
    out.append(data.base_branch.as_str());
    out.append(
        "`\n\n---\nThis stack of pull requests is managed by [jj-ryu](https://github.com/dmmulroy/jj-ryu).",
    );
    proof {
        assert(out@ =~= comment_body(data@, current_idx as int));
    }
    Ok(out)
}

/// What marks the line of the PR that the comment stands on: the end of
/// such a line.
pub open spec fn current_mark() -> Seq<char> {
    " "@ + STACK_COMMENT_THIS_PR@ + "**\n"@
}

/// The line of a PR ends with the mark exactly when the PR is the one that
/// the comment stands on.
pub proof fn lemma_line_marked(item: StackItemView, current: bool)
    ensures
        current_mark().is_suffix_of(comment_line(item, current)) == current,
{
    reveal_strlit(" ");
    reveal_strlit("**\n");
    reveal_strlit(")\n");
    reveal_strlit("👈");
    let line = comment_line(item, current);
    let mark = current_mark();
    if current {
        let head = "* **"@ + item.pr_title + " #"@ + decimal(item.pr_number as nat);
        assert(line =~= head + mark);
        assert(line.subrange(line.len() - mark.len(), line.len() as int) =~= mark);
    } else {
        let head = "* ["@ + item.pr_title + " #"@ + decimal(item.pr_number as nat) + "]("@
            + item.pr_url;
        assert(line =~= head + ")\n"@);
        assert(line[line.len() - 2] == ')');
        assert(mark[mark.len() - 2] == '*');
        if mark.is_suffix_of(line) {
            let tail = line.subrange(line.len() - mark.len(), line.len() as int);
            assert(tail[mark.len() - 2] == line[line.len() - 2]);
        }
    }
}

/// In the comment on the PR at `current`, the line of that PR carries the
/// mark and no other line does: exactly one PR of the stack is marked.
pub proof fn lemma_one_marked(stack: Seq<StackItemView>, current: int)
    requires
        0 <= current < stack.len(),
    ensures
        forall|j: int|
            0 <= j < stack.len() ==> (current_mark().is_suffix_of(
                comment_line(#[trigger] stack[j], j == current),
            ) <==> j == current),
{
    assert forall|j: int| 0 <= j < stack.len() implies (current_mark().is_suffix_of(
        comment_line(#[trigger] stack[j], j == current),
    ) <==> j == current) by {
        lemma_line_marked(stack[j], j == current);
    }
}

/// The data block of a comment body: what stands between the opening at
/// the start of the body and the closing, where the closing is what ends
/// with the first `>` behind the opening.
pub open spec fn data_block_of(body: Seq<char>) -> Option<Seq<char>> {
    let prefix = COMMENT_DATA_PREFIX@;
    let postfix = COMMENT_DATA_POSTFIX@;
    if prefix.is_prefix_of(body) {
        let after = body.skip(prefix.len() as int);
        let end = first_index_of(after, '>');
        if postfix.len() - 1 <= end < after.len() && after.subrange(
            end + 1 - postfix.len(),
            end + 1,
        ) == postfix {
            Some(after.take(end + 1 - postfix.len()))
        } else {
            None
        }
    } else {
        None
    }
}

/// The stack that a comment body carries, if it carries one.
pub open spec fn parse_comment(body: Seq<char>) -> Option<StackCommentDataView> {
    match data_block_of(body) {
        Some(block) => parse_block(block),
        None => None,
    }
}

/// Whether `text` holds no `>`.
pub open spec fn no_gt(text: Seq<char>) -> bool {
    forall|i: int| 0 <= i < text.len() ==> text[i] != '>'
}

/// A field holds no `>`, whatever its content.
pub proof fn lemma_field_no_gt(s: Seq<char>)
    ensures
        no_gt(crate::submit::codec::escape(s)),
        no_gt(field(s)),
    decreases s.len(),
{
    if s.len() > 0 {
        lemma_field_no_gt(s.drop_first());
    }
}

/// A data block holds no `>`.
pub proof fn lemma_items_no_gt(items: Seq<StackItemView>)
    ensures
        no_gt(encode_items(items)),
    decreases items.len(),
{
    if items.len() > 0 {
        let item = items[0];
        lemma_field_no_gt(item.bookmark_name);
        lemma_field_no_gt(decimal(item.pr_number as nat));
        lemma_field_no_gt(item.pr_url);
        lemma_field_no_gt(item.pr_title);
        lemma_items_no_gt(items.drop_first());
    }
}

/// The first `>` of a text that begins with a part without one is the
/// first `>` of what follows that part.
pub proof fn lemma_first_gt_skips(head: Seq<char>, tail: Seq<char>)
    requires
        no_gt(head),
    ensures
        first_index_of(head + tail, '>') == head.len() + first_index_of(tail, '>'),
    decreases head.len(),
{
    if head.len() == 0 {
        assert(head + tail =~= tail);
    } else {
        assert((head + tail).drop_first() =~= head.drop_first() + tail);
        assert((head + tail)[0] == head[0]);
        lemma_first_gt_skips(head.drop_first(), tail);
    }
}

/// Round trip of the comment: the body that is written for a stack is read
/// back as that stack, whichever PR the comment stands on.
pub proof fn lemma_comment_round_trip(data: StackCommentDataView, current: int)
    ensures
        parse_comment(comment_body(data, current)) == Some(data),
{
    reveal_strlit(" --->");
    let prefix = COMMENT_DATA_PREFIX@;
    let postfix = COMMENT_DATA_POSTFIX@;
    let block = encode_block(data);
    let rest = "\n"@ + comment_lines(data.stack, current, data.stack.len()) + comment_footer(
        data.base_branch,
    );
    let body = comment_body(data, current);
    let after = block + (postfix + rest);
    assert(body =~= prefix + after);
    assert(body.subrange(0, prefix.len() as int) =~= prefix);
    assert(body.skip(prefix.len() as int) =~= after);
    assert(no_gt(block)) by {
        lemma_field_no_gt(decimal(data.version as nat));
        lemma_field_no_gt(data.base_branch);
        lemma_items_no_gt(data.stack);
    }
    let dashes = postfix.take(4);
    assert(no_gt(block + dashes));
    assert(after =~= (block + dashes) + (postfix.skip(4) + rest));
    lemma_first_gt_skips(block + dashes, postfix.skip(4) + rest);
    assert((postfix.skip(4) + rest)[0] == '>');
    assert(first_index_of(after, '>') == block.len() + 4);
    assert(after.subrange(block.len() as int, (block.len() + 5) as int) =~= postfix);
    assert(after.take(block.len() as int) =~= block);
    lemma_block_round_trip(data);
}

/// Reads the stack that a comment body carries, if it carries one.
pub fn parse_stack_comment(body: &str) -> (r: Option<StackCommentData>)
    ensures
        r.deep_view() == parse_comment(body@),
{
    let text = to_chars(body);
    let prefix = to_chars(COMMENT_DATA_PREFIX);
    let postfix = to_chars(COMMENT_DATA_POSTFIX);
    proof {
        reveal_strlit(" --->");
        reveal_strlit("<!--- JJ-RYU_STACK: ");
    }
    let n = text.len();
    let p = prefix.len();
    let q = postfix.len();
    if n < p {
        return None;
    }
    let mut i: usize = 0;
    while i < p
        invariant
            text@ == body@,
            prefix@ == COMMENT_DATA_PREFIX@,
            p == prefix@.len(),
            p <= n,
            n == text@.len(),
            i <= p,
            forall|j: int| 0 <= j < i ==> text@[j] == prefix@[j],
        decreases p - i,
    {
        if text[i] != prefix[i] {
            proof {
                if prefix@.is_prefix_of(text@) {
                    assert(text@.subrange(0, p as int)[i as int] == prefix@[i as int]);
                }
            }
            return None;
        }
        i += 1;
    }
    proof {
        assert(text@.subrange(0, p as int) =~= prefix@);
    }
    let ghost after = text@.skip(p as int);
    let mut end: usize = p;
    proof {
        assert(after.skip(0) =~= after);
    }
    while end < n && text[end] != '>'
        invariant
            n == text@.len(),
            p <= end <= n,
            after == text@.skip(p as int),
            first_index_of(after, '>') == (end - p) + first_index_of(after.skip(end - p), '>'),
        decreases n - end,
    {
        proof {
            assert(after.skip(end - p)[0] == text@[end as int]);
            assert(after.skip(end - p).drop_first() =~= after.skip(end - p + 1));
        }
        end += 1;
    }
    proof {
        if end < n {
            assert(after.skip(end - p)[0] == text@[end as int]);
        } else {
            assert(after.skip(end - p).len() == 0);
        }
        assert(first_index_of(after, '>') == end - p);
    }
    if end >= n || end - p < q - 1 {
        return None;
    }
    let start = end + 1 - q;
    let mut k: usize = 0;
    while k < q
        invariant
            text@ == body@,
            prefix@ == COMMENT_DATA_PREFIX@,
            postfix@ == COMMENT_DATA_POSTFIX@,
            prefix@.is_prefix_of(text@),
            p == prefix@.len(),
            first_index_of(after, '>') == end - p,
            q == postfix@.len(),
            q == 5,
            n == text@.len(),
            p <= start,
            start + q == end + 1,
            end < n,
            after == text@.skip(p as int),
            k <= q,
            forall|j: int| 0 <= j < k ==> text@[start + j] == postfix@[j],
        decreases q - k,
    {
        if text[start + k] != postfix[k] {
            proof {
                let found = after.subrange(end - p + 1 - q, end - p + 1);
                assert(found[k as int] == text@[start + k]);
            }
            return None;
        }
        k += 1;
    }
    proof {
        assert(after.subrange(end - p + 1 - q, end - p + 1) =~= postfix@);
    }
    let mut block: Vec<char> = Vec::new();
    let mut m: usize = p;
    while m < start
        invariant
            p <= m <= start,
            start <= n,
            n == text@.len(),
            block@ == text@.subrange(p as int, m as int),
        decreases start - m,
    {
        block.push(text[m]);
        proof {
            assert(block@ =~= text@.subrange(p as int, m + 1));
        }
        m += 1;
    }
    proof {
        assert(block@ =~= after.take(end - p + 1 - q));
    }
    decode_chars(&block)
}

} // verus!
