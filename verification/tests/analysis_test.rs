//! Tests for stack analysis and bookmark selection.

use jj_ryu::error::Error;
use jj_ryu::submit::{
    analyze_submission, generate_pr_title, get_base_branch, select_bookmark_for_segment,
    select_bookmark_with, TemporaryPatterns,
};
use jj_ryu::types::{Bookmark, BookmarkMap, BookmarkSegment, BranchStack, ChangeGraph, LogEntry};

fn make_bookmark(name: &str) -> Bookmark {
    Bookmark {
        name: name.to_string(),
        commit_id: format!("{name}_commit"),
        change_id: format!("{name}_change"),
        has_remote: false,
        is_synced: false,
    }
}

fn make_log_entry(description: &str, bookmarks: &[&str]) -> LogEntry {
    LogEntry {
        commit_id: format!("{description}_commit"),
        change_id: format!("{description}_change"),
        author_name: "Test Author".to_string(),
        author_email: "test@example.com".to_string(),
        description_first_line: description.to_string(),
        description: description.to_string(),
        parents: vec![],
        local_bookmarks: bookmarks.iter().map(|b| b.to_string()).collect(),
        remote_bookmarks: vec![],
        is_working_copy: false,
        authored_at: 1_700_000_000_000,
        committed_at: 1_700_000_000_000,
    }
}

fn make_linear_stack(names: &[&str]) -> ChangeGraph {
    let mut bookmarks = BookmarkMap::new();
    let mut segments = Vec::new();
    for name in names {
        bookmarks.insert(name.to_string(), make_bookmark(name));
        segments.push(BookmarkSegment {
            bookmarks: vec![make_bookmark(name)],
            changes: vec![make_log_entry(&format!("Commit for {name}"), &[name])],
        });
    }
    ChangeGraph {
        bookmarks,
        stack: if segments.is_empty() { None } else { Some(BranchStack { segments }) },
        excluded_bookmark_count: 0,
    }
}

fn make_multi_bookmark_segment(names: &[&str]) -> ChangeGraph {
    let mut bookmarks = BookmarkMap::new();
    for name in names {
        bookmarks.insert(name.to_string(), make_bookmark(name));
    }
    let segment = BookmarkSegment {
        bookmarks: names.iter().map(|n| make_bookmark(n)).collect(),
        changes: vec![make_log_entry("Shared commit", names)],
    };
    ChangeGraph {
        bookmarks,
        stack: Some(BranchStack { segments: vec![segment] }),
        excluded_bookmark_count: 0,
    }
}

#[test]
fn test_analyze_middle_of_stack() {
    // Stack: a -> b -> c, target b
    // Should return [a, b] not [a, b, c]
    let graph = make_linear_stack(&["feat-a", "feat-b", "feat-c"]);
    let result = analyze_submission(&graph, Some("feat-b")).unwrap();

    assert_eq!(result.target_bookmark, "feat-b");
    assert_eq!(result.segments.len(), 2);
    assert_eq!(result.segments[0].bookmark.name, "feat-a");
    assert_eq!(result.segments[1].bookmark.name, "feat-b");
}

#[test]
fn test_analyze_root_of_stack() {
    let graph = make_linear_stack(&["feat-a", "feat-b", "feat-c"]);
    let result = analyze_submission(&graph, Some("feat-a")).unwrap();

    assert_eq!(result.segments.len(), 1);
    assert_eq!(result.segments[0].bookmark.name, "feat-a");
}

#[test]
fn test_analyze_leaf_of_stack() {
    let graph = make_linear_stack(&["feat-a", "feat-b", "feat-c"]);
    let result = analyze_submission(&graph, Some("feat-c")).unwrap();

    assert_eq!(result.segments.len(), 3);
    assert_eq!(result.segments[2].bookmark.name, "feat-c");
}

#[test]
fn test_get_base_branch_three_level_stack() {
    let graph = make_linear_stack(&["feat-a", "feat-b", "feat-c"]);
    let analysis = analyze_submission(&graph, Some("feat-c")).unwrap();

    assert_eq!(
        get_base_branch("feat-a", &analysis.segments, "main").unwrap(),
        "main"
    );
    assert_eq!(
        get_base_branch("feat-b", &analysis.segments, "main").unwrap(),
        "feat-a"
    );
    assert_eq!(
        get_base_branch("feat-c", &analysis.segments, "main").unwrap(),
        "feat-b"
    );
}

#[test]
fn test_generate_pr_title_uses_root_commit_description() {
    // Fixture creates description "Commit for {name}"
    let graph = make_linear_stack(&["feat-a"]);
    let analysis = analyze_submission(&graph, Some("feat-a")).unwrap();

    let title = generate_pr_title("feat-a", &analysis.segments).unwrap();
    // Should use the actual commit description, not just the bookmark name
    assert_eq!(title, "Commit for feat-a");
}

#[test]
fn test_analyze_nonexistent_bookmark_error_type() {
    let graph = make_linear_stack(&["feat-a", "feat-b"]);
    let result = analyze_submission(&graph, Some("nonexistent"));

    // Verify we get the correct error type with the bookmark name
    match result {
        Err(Error::BookmarkNotFound(name)) => assert_eq!(name, "nonexistent"),
        other => panic!("Expected BookmarkNotFound error, got: {other:?}"),
    }
}

#[test]
fn test_analyze_multi_bookmark_segment_selects_target() {
    // Two bookmarks pointing to the same commit
    let graph = make_multi_bookmark_segment(&["feat-a", "feat-b"]);
    let analysis = analyze_submission(&graph, Some("feat-b")).unwrap();

    // Should select the target bookmark
    assert_eq!(analysis.segments.len(), 1);
    assert_eq!(analysis.segments[0].bookmark.name, "feat-b");
}

#[test]
fn test_select_bookmark_prefers_shorter_name() {
    let graph = make_multi_bookmark_segment(&["feature-auth", "auth"]);
    // Don't specify target - should prefer shorter name
    let segment = &graph.stack.as_ref().unwrap().segments[0];
    let selected = select_bookmark_for_segment(segment, None);
    assert_eq!(selected.name, "auth");
}

#[test]
fn test_select_bookmark_filters_temporary() {
    let graph = make_multi_bookmark_segment(&["wip-feature", "feature"]);
    let segment = &graph.stack.as_ref().unwrap().segments[0];
    let selected = select_bookmark_for_segment(segment, None);
    // Should filter out "wip-feature" and select "feature"
    assert_eq!(selected.name, "feature");
}

#[test]
fn test_select_bookmark_filters_temp_suffix() {
    let graph = make_multi_bookmark_segment(&["auth-old", "auth"]);
    let segment = &graph.stack.as_ref().unwrap().segments[0];
    let selected = select_bookmark_for_segment(segment, None);
    assert_eq!(selected.name, "auth");
}

#[test]
fn test_select_bookmark_all_temporary_uses_shortest() {
    // When all bookmarks are temporary, still picks shortest
    let graph = make_multi_bookmark_segment(&["wip-auth-feature", "tmp-auth"]);
    let segment = &graph.stack.as_ref().unwrap().segments[0];
    let selected = select_bookmark_for_segment(segment, None);
    // Falls back to shortest
    assert_eq!(selected.name, "tmp-auth");
}

#[test]
fn test_select_bookmark_alphabetical_tiebreaker() {
    // Use equal-length names to test alphabetical tiebreaker
    let graph = make_multi_bookmark_segment(&["bbb", "aaa"]);
    let segment = &graph.stack.as_ref().unwrap().segments[0];
    let selected = select_bookmark_for_segment(segment, None);
    // Same length (3 chars each), alphabetically first wins
    assert_eq!(selected.name, "aaa");
}

#[test]
fn test_select_bookmark_single_returns_it() {
    let graph = make_linear_stack(&["solo"]);
    let segment = &graph.stack.as_ref().unwrap().segments[0];
    let selected = select_bookmark_for_segment(segment, None);
    assert_eq!(selected.name, "solo");
}

#[test]
fn test_analyze_10_level_deep_stack() {
    let names: Vec<String> = (0..10).map(|i| format!("feat-{i}")).collect();
    let name_refs: Vec<&str> = names.iter().map(String::as_str).collect();
    let graph = make_linear_stack(&name_refs);
    let analysis = analyze_submission(&graph, Some("feat-9")).unwrap();

    assert_eq!(analysis.segments.len(), 10);
    assert_eq!(analysis.segments[0].bookmark.name, "feat-0");
    assert_eq!(analysis.segments[9].bookmark.name, "feat-9");
}

#[test]
fn analyze_without_target_takes_whole_stack() {
    let graph = make_linear_stack(&["feat-a", "feat-b", "feat-c"]);
    let analysis = analyze_submission(&graph, None).unwrap();
    assert_eq!(analysis.target_bookmark, "feat-c");
    assert_eq!(analysis.segments.len(), 3);
}

#[test]
fn analyze_without_stack_is_an_error() {
    let graph = ChangeGraph::default();
    assert!(matches!(analyze_submission(&graph, None), Err(Error::NoStack)));
    assert!(matches!(analyze_submission(&graph, Some("feat-a")), Err(Error::NoStack)));
}

#[test]
fn select_is_stable_across_calls() {
    let graph = make_multi_bookmark_segment(&["zeta", "wip-a", "beta", "alfa", "b-old"]);
    let segment = &graph.stack.as_ref().unwrap().segments[0];
    let first = select_bookmark_for_segment(segment, None);
    let second = select_bookmark_for_segment(segment, None);
    assert_eq!(first.name, "alfa");
    assert_eq!(first, second);
}

#[test]
fn select_takes_named_target_even_if_temporary() {
    let graph = make_multi_bookmark_segment(&["auth", "wip-auth"]);
    let segment = &graph.stack.as_ref().unwrap().segments[0];
    assert_eq!(select_bookmark_for_segment(segment, Some("wip-auth")).name, "wip-auth");
    // A target that the segment does not hold is ignored.
    assert_eq!(select_bookmark_for_segment(segment, Some("other")).name, "auth");
}

#[test]
fn select_with_custom_patterns() {
    let graph = make_multi_bookmark_segment(&["x", "scratch/y", "longer"]);
    let segment = &graph.stack.as_ref().unwrap().segments[0];
    let patterns = TemporaryPatterns { prefixes: vec!["x".to_string()], suffixes: vec!["/y".to_string()] };
    assert_eq!(select_bookmark_with(segment, None, &patterns).name, "longer");
    assert!(patterns.matches("xylophone"));
    assert!(patterns.matches("a/y"));
    assert!(!patterns.matches("y/a"));
}

#[test]
fn default_patterns_match_the_four_forms() {
    let patterns = TemporaryPatterns::default();
    assert!(patterns.matches("wip-feature"));
    assert!(patterns.matches("tmp-feature"));
    assert!(patterns.matches("feature-old"));
    assert!(patterns.matches("feature-tmp"));
    assert!(!patterns.matches("feature"));
    assert!(!patterns.matches("old-feature"));
    assert!(!patterns.matches("wip"));
}

#[test]
fn shorter_is_measured_before_order() {
    let graph = make_multi_bookmark_segment(&["aaaa", "zz"]);
    let segment = &graph.stack.as_ref().unwrap().segments[0];
    assert_eq!(select_bookmark_for_segment(segment, None).name, "zz");
}

#[test]
fn title_falls_back_to_bookmark_name() {
    let mut graph = make_linear_stack(&["feat-a"]);
    graph.stack.as_mut().unwrap().segments[0].changes[0].description_first_line = String::new();
    let analysis = analyze_submission(&graph, None).unwrap();
    assert_eq!(generate_pr_title("feat-a", &analysis.segments).unwrap(), "feat-a");
    assert!(matches!(
        generate_pr_title("missing", &analysis.segments),
        Err(Error::BookmarkNotFound(name)) if name == "missing"
    ));
    assert!(matches!(
        get_base_branch("missing", &analysis.segments, "main"),
        Err(Error::BookmarkNotFound(name)) if name == "missing"
    ));
}

#[test]
fn title_uses_oldest_change_of_segment() {
    let mut graph = make_linear_stack(&["feat-a"]);
    let segment = &mut graph.stack.as_mut().unwrap().segments[0];
    segment.changes.insert(0, make_log_entry("Newest change", &[]));
    let analysis = analyze_submission(&graph, None).unwrap();
    assert_eq!(generate_pr_title("feat-a", &analysis.segments).unwrap(), "Commit for feat-a");
}

#[test]
fn retain_keeps_order_of_kept_segments() {
    let graph = make_linear_stack(&["feat-a", "feat-b", "feat-c"]);
    let mut analysis = analyze_submission(&graph, None).unwrap();
    analysis.retain_tracked(&vec!["feat-c".to_string(), "feat-a".to_string()]);
    let names: Vec<&str> = analysis.segments.iter().map(|s| s.bookmark.name.as_str()).collect();
    assert_eq!(names, vec!["feat-a", "feat-c"]);
    assert_eq!(analysis.target_bookmark, "feat-c");
}
