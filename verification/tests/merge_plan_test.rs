//! Tests for merge planning.

use jj_ryu::merge::{
    create_merge_plan, MergeConfidence, MergePlan, MergePlanOptions, MergeStep, PrInfo, PrInfoMap,
};
use jj_ryu::submit::{analyze_submission, SubmissionAnalysis};
use jj_ryu::types::{
    Bookmark, BookmarkMap, BookmarkSegment, BranchStack, ChangeGraph, LogEntry, MergeMethod,
    MergeReadiness, PrState, PullRequestDetails,
};

fn make_bookmark(name: &str) -> Bookmark {
    Bookmark {
        name: name.to_string(),
        commit_id: format!("{name}_commit"),
        change_id: format!("{name}_change"),
        has_remote: false,
        is_synced: false,
    }
}

fn make_log_entry(description: &str, bookmarks: &[&str]) -> LogEntry {
    LogEntry {
        commit_id: format!("{description}_commit"),
        change_id: format!("{description}_change"),
        author_name: "Test Author".to_string(),
        author_email: "test@example.com".to_string(),
        description_first_line: description.to_string(),
        description: description.to_string(),
        parents: vec![],
        local_bookmarks: bookmarks.iter().map(|b| b.to_string()).collect(),
        remote_bookmarks: vec![],
        is_working_copy: false,
        authored_at: 1_700_000_000_000,
        committed_at: 1_700_000_000_000,
    }
}

fn make_linear_stack(names: &[&str]) -> ChangeGraph {
    let mut bookmarks = BookmarkMap::new();
    let mut segments = Vec::new();
    for name in names {
        bookmarks.insert(name.to_string(), make_bookmark(name));
        segments.push(BookmarkSegment {
            bookmarks: vec![make_bookmark(name)],
            changes: vec![make_log_entry(&format!("Commit for {name}"), &[name])],
        });
    }
    ChangeGraph {
        bookmarks,
        stack: if segments.is_empty() { None } else { Some(BranchStack { segments }) },
        excluded_bookmark_count: 0,
    }
}

fn analysis_of(names: &[&str]) -> SubmissionAnalysis {
    let graph = make_linear_stack(names);
    analyze_submission(&graph, Some(names[names.len() - 1])).unwrap()
}

/// A mergeable PrInfo with base_ref set to "main".
fn make_mergeable_pr_info(bookmark: &str, pr_number: u64, title: &str) -> PrInfo {
    make_mergeable_pr_info_with_base(bookmark, pr_number, title, "main")
}

/// A mergeable PrInfo with a specific base_ref.
fn make_mergeable_pr_info_with_base(
    bookmark: &str,
    pr_number: u64,
    title: &str,
    base_ref: &str,
) -> PrInfo {
    PrInfo {
        bookmark: bookmark.to_string(),
        details: PullRequestDetails {
            number: pr_number,
            title: title.to_string(),
            body: Some(format!("PR body for {bookmark}")),
            state: PrState::Open,
            is_draft: false,
            mergeable: Some(true),
            head_ref: bookmark.to_string(),
            base_ref: base_ref.to_string(),
            html_url: format!("https://github.com/test/repo/pull/{pr_number}"),
        },
        readiness: MergeReadiness {
            is_approved: true,
            ci_passed: true,
            is_mergeable: Some(true),
            is_draft: false,
            blocking_reasons: vec![],
            uncertainties: vec![],
        },
    }
}

/// A blocked PrInfo.
fn make_blocked_pr_info(
    bookmark: &str,
    pr_number: u64,
    title: &str,
    reasons: Vec<String>,
) -> PrInfo {
    let mut info = make_mergeable_pr_info(bookmark, pr_number, title);
    info.readiness.is_approved = false;
    info.readiness.blocking_reasons = reasons;
    info
}

/// A PrInfo with uncertain merge status.
fn make_uncertain_pr_info(bookmark: &str, pr_number: u64, title: &str) -> PrInfo {
    let mut info = make_mergeable_pr_info(bookmark, pr_number, title);
    info.details.mergeable = None;
    info.readiness.is_mergeable = None;
    info.readiness.uncertainties =
        vec!["Merge status unknown (GitHub still computing)".to_string()];
    info
}

#[test]
fn test_create_merge_plan_single_mergeable() {
    let graph = make_linear_stack(&["feat-a"]);
    let analysis = analyze_submission(&graph, Some("feat-a")).unwrap();

    let mut pr_info = PrInfoMap::new();
    pr_info.insert(
        "feat-a".to_string(),
        make_mergeable_pr_info("feat-a", 1, "Add feature A"),
    );

    let plan = create_merge_plan(&analysis, &pr_info, &MergePlanOptions::default(), "main");

    assert!(!plan.is_empty());
    assert_eq!(plan.merge_count(), 1);
    assert!(plan.has_actionable);
    assert_eq!(plan.bookmarks_to_clear, vec!["feat-a"]);
    assert!(plan.rebase_target.is_none()); // Nothing left to rebase

    // Verify the step details
    match &plan.steps[0] {
        MergeStep::Merge {
            bookmark,
            pr_number,
            pr_title,
            method,
            confidence,
        } => {
            assert_eq!(bookmark, "feat-a");
            assert_eq!(*pr_number, 1);
            assert_eq!(pr_title, "Add feature A");
            assert_eq!(*method, MergeMethod::Squash);
            assert_eq!(*confidence, MergeConfidence::Certain);
        }
        MergeStep::Skip { .. } => panic!("Expected Merge step, got Skip"),
        MergeStep::RetargetBase { .. } => panic!("Expected Merge step, got RetargetBase"),
    }
}

#[test]
fn test_create_merge_plan_multiple_consecutive_mergeable() {
    // PR1 targets main, PR2 targets feat-a, PR3 targets feat-b
    let graph = make_linear_stack(&["feat-a", "feat-b", "feat-c"]);
    let analysis = analyze_submission(&graph, Some("feat-c")).unwrap();

    let mut pr_info = PrInfoMap::new();
    pr_info.insert(
        "feat-a".to_string(),
        make_mergeable_pr_info_with_base("feat-a", 1, "Add feature A", "main"),
    );
    pr_info.insert(
        "feat-b".to_string(),
        make_mergeable_pr_info_with_base("feat-b", 2, "Add feature B", "feat-a"),
    );
    pr_info.insert(
        "feat-c".to_string(),
        make_mergeable_pr_info_with_base("feat-c", 3, "Add feature C", "feat-b"),
    );

    let plan = create_merge_plan(&analysis, &pr_info, &MergePlanOptions::default(), "main");

    assert_eq!(plan.merge_count(), 3);
    assert!(plan.has_actionable);
    assert_eq!(plan.bookmarks_to_clear, vec!["feat-a", "feat-b", "feat-c"]);
    assert!(plan.rebase_target.is_none());

    // Should have 5 steps: Merge, Retarget, Merge, Retarget, Merge
    assert_eq!(plan.steps.len(), 5);
    assert!(matches!(&plan.steps[0], MergeStep::Merge { pr_number: 1, .. }));
    assert!(matches!(&plan.steps[1], MergeStep::RetargetBase { pr_number: 2, new_base, .. } if new_base == "main"));
    assert!(matches!(&plan.steps[2], MergeStep::Merge { pr_number: 2, .. }));
    assert!(matches!(&plan.steps[3], MergeStep::RetargetBase { pr_number: 3, new_base, .. } if new_base == "main"));
    assert!(matches!(&plan.steps[4], MergeStep::Merge { pr_number: 3, .. }));
}

#[test]
fn test_create_merge_plan_blocked_pr_stops_chain() {
    let graph = make_linear_stack(&["feat-a", "feat-b", "feat-c"]);
    let analysis = analyze_submission(&graph, Some("feat-c")).unwrap();

    let mut pr_info = PrInfoMap::new();
    pr_info.insert(
        "feat-a".to_string(),
        make_mergeable_pr_info("feat-a", 1, "Add feature A"),
    );
    // feat-b is blocked
    pr_info.insert(
        "feat-b".to_string(),
        make_blocked_pr_info("feat-b", 2, "Add feature B", vec!["Not approved".to_string()]),
    );
    pr_info.insert(
        "feat-c".to_string(),
        make_mergeable_pr_info("feat-c", 3, "Add feature C"),
    );

    let plan = create_merge_plan(&analysis, &pr_info, &MergePlanOptions::default(), "main");

    // Only feat-a should be merged, feat-b is skipped
    assert_eq!(plan.merge_count(), 1);
    assert!(plan.has_actionable);
    assert_eq!(plan.bookmarks_to_clear, vec!["feat-a"]);
    assert_eq!(plan.rebase_target, Some("feat-b".to_string()));

    // Verify steps
    assert_eq!(plan.steps.len(), 2);
    assert!(matches!(&plan.steps[0], MergeStep::Merge { bookmark, .. } if bookmark == "feat-a"));
    assert!(
        matches!(&plan.steps[1], MergeStep::Skip { bookmark, reasons, .. } if bookmark == "feat-b" && reasons.contains(&"Not approved".to_string()))
    );
}

#[test]
fn test_create_merge_plan_first_pr_blocked() {
    let graph = make_linear_stack(&["feat-a", "feat-b"]);
    let analysis = analyze_submission(&graph, Some("feat-b")).unwrap();

    let mut pr_info = PrInfoMap::new();
    // feat-a is blocked - nothing can merge
    pr_info.insert(
        "feat-a".to_string(),
        make_blocked_pr_info(
            "feat-a",
            1,
            "Add feature A",
            vec!["CI not passing".to_string()],
        ),
    );
    pr_info.insert(
        "feat-b".to_string(),
        make_mergeable_pr_info("feat-b", 2, "Add feature B"),
    );

    let plan = create_merge_plan(&analysis, &pr_info, &MergePlanOptions::default(), "main");

    assert!(plan.is_empty());
    assert_eq!(plan.merge_count(), 0);
    assert!(!plan.has_actionable);
    assert!(plan.bookmarks_to_clear.is_empty());
    assert_eq!(plan.rebase_target, Some("feat-a".to_string()));

    // Should have one Skip step
    assert_eq!(plan.steps.len(), 1);
    assert!(matches!(&plan.steps[0], MergeStep::Skip { bookmark, .. } if bookmark == "feat-a"));
}

#[test]
fn test_create_merge_plan_with_target_bookmark() {
    let graph = make_linear_stack(&["feat-a", "feat-b", "feat-c"]);
    let analysis = analyze_submission(&graph, Some("feat-c")).unwrap();

    let mut pr_info = PrInfoMap::new();
    pr_info.insert(
        "feat-a".to_string(),
        make_mergeable_pr_info("feat-a", 1, "Add feature A"),
    );
    pr_info.insert(
        "feat-b".to_string(),
        make_mergeable_pr_info("feat-b", 2, "Add feature B"),
    );
    pr_info.insert(
        "feat-c".to_string(),
        make_mergeable_pr_info("feat-c", 3, "Add feature C"),
    );

    // Only merge up to feat-b
    let options = MergePlanOptions {
        target_bookmark: Some("feat-b".to_string()),
    };
    let plan = create_merge_plan(&analysis, &pr_info, &options, "main");

    // Should merge feat-a and feat-b, but not feat-c
    assert_eq!(plan.merge_count(), 2);
    assert_eq!(plan.bookmarks_to_clear, vec!["feat-a", "feat-b"]);
    assert_eq!(plan.rebase_target, Some("feat-c".to_string()));
}

#[test]
fn test_create_merge_plan_empty_when_no_prs() {
    let graph = make_linear_stack(&["feat-a", "feat-b"]);
    let analysis = analyze_submission(&graph, Some("feat-b")).unwrap();

    // No PR info provided
    let pr_info = PrInfoMap::new();

    let plan = create_merge_plan(&analysis, &pr_info, &MergePlanOptions::default(), "main");

    assert!(plan.is_empty());
    assert_eq!(plan.merge_count(), 0);
    assert!(!plan.has_actionable);
    assert!(plan.steps.is_empty());
}

#[test]
fn test_create_merge_plan_partial_pr_info() {
    // Only some bookmarks have PRs
    let graph = make_linear_stack(&["feat-a", "feat-b", "feat-c"]);
    let analysis = analyze_submission(&graph, Some("feat-c")).unwrap();

    let mut pr_info = PrInfoMap::new();
    // Only feat-b has a PR
    pr_info.insert(
        "feat-b".to_string(),
        make_mergeable_pr_info("feat-b", 2, "Add feature B"),
    );

    let plan = create_merge_plan(&analysis, &pr_info, &MergePlanOptions::default(), "main");

    assert_eq!(plan.merge_count(), 1);
    assert_eq!(plan.bookmarks_to_clear, vec!["feat-b"]);
}

#[test]
fn test_create_merge_plan_draft_pr_blocks() {
    let graph = make_linear_stack(&["feat-a"]);
    let analysis = analyze_submission(&graph, Some("feat-a")).unwrap();

    let mut pr_info = PrInfoMap::new();
    let mut info = make_mergeable_pr_info("feat-a", 1, "Add feature A");
    // Make it a draft
    info.details.is_draft = true;
    info.readiness.is_draft = true;
    info.readiness.blocking_reasons = vec!["PR is a draft".to_string()];
    pr_info.insert("feat-a".to_string(), info);

    let plan = create_merge_plan(&analysis, &pr_info, &MergePlanOptions::default(), "main");

    assert!(plan.is_empty());
    assert!(!plan.has_actionable);
    assert!(matches!(&plan.steps[0], MergeStep::Skip { reasons, .. } if reasons.contains(&"PR is a draft".to_string())));
}

#[test]
fn test_create_merge_plan_not_approved_blocks() {
    let graph = make_linear_stack(&["feat-a"]);
    let analysis = analyze_submission(&graph, Some("feat-a")).unwrap();

    let mut pr_info = PrInfoMap::new();
    pr_info.insert(
        "feat-a".to_string(),
        make_blocked_pr_info("feat-a", 1, "Add feature A", vec!["Not approved".to_string()]),
    );

    let plan = create_merge_plan(&analysis, &pr_info, &MergePlanOptions::default(), "main");

    assert!(plan.is_empty());
    assert!(matches!(&plan.steps[0], MergeStep::Skip { reasons, .. } if reasons.contains(&"Not approved".to_string())));
}

#[test]
fn test_create_merge_plan_ci_failing_blocks() {
    let graph = make_linear_stack(&["feat-a"]);
    let analysis = analyze_submission(&graph, Some("feat-a")).unwrap();

    let mut pr_info = PrInfoMap::new();
    let mut info = make_mergeable_pr_info("feat-a", 1, "Add feature A");
    info.readiness.ci_passed = false;
    info.readiness.blocking_reasons = vec!["CI not passing".to_string()];
    pr_info.insert("feat-a".to_string(), info);

    let plan = create_merge_plan(&analysis, &pr_info, &MergePlanOptions::default(), "main");

    assert!(plan.is_empty());
    assert!(matches!(&plan.steps[0], MergeStep::Skip { reasons, .. } if reasons.contains(&"CI not passing".to_string())));
}

#[test]
fn test_create_merge_plan_merge_conflicts_blocks() {
    let graph = make_linear_stack(&["feat-a"]);
    let analysis = analyze_submission(&graph, Some("feat-a")).unwrap();

    let mut pr_info = PrInfoMap::new();
    let mut info = make_mergeable_pr_info("feat-a", 1, "Add feature A");
    info.readiness.is_mergeable = Some(false);
    info.readiness.blocking_reasons = vec!["Has merge conflicts".to_string()];
    pr_info.insert("feat-a".to_string(), info);

    let plan = create_merge_plan(&analysis, &pr_info, &MergePlanOptions::default(), "main");

    assert!(plan.is_empty());
    assert!(matches!(&plan.steps[0], MergeStep::Skip { reasons, .. } if reasons.contains(&"Has merge conflicts".to_string())));
}

#[test]
fn test_merge_plan_is_empty_with_only_skips() {
    let graph = make_linear_stack(&["feat-a"]);
    let analysis = analyze_submission(&graph, Some("feat-a")).unwrap();

    let mut pr_info = PrInfoMap::new();
    pr_info.insert(
        "feat-a".to_string(),
        make_blocked_pr_info("feat-a", 1, "Add feature A", vec!["Not approved".to_string()]),
    );

    let plan = create_merge_plan(&analysis, &pr_info, &MergePlanOptions::default(), "main");

    // is_empty() should return true when there are only Skip steps
    assert!(plan.is_empty());
    // But steps is not empty - it contains Skip steps
    assert!(!plan.steps.is_empty());
}

#[test]
fn test_merge_plan_merge_count() {
    let graph = make_linear_stack(&["feat-a", "feat-b", "feat-c"]);
    let analysis = analyze_submission(&graph, Some("feat-c")).unwrap();

    let mut pr_info = PrInfoMap::new();
    pr_info.insert(
        "feat-a".to_string(),
        make_mergeable_pr_info("feat-a", 1, "Add feature A"),
    );
    pr_info.insert(
        "feat-b".to_string(),
        make_blocked_pr_info("feat-b", 2, "Add feature B", vec!["Not approved".to_string()]),
    );
    pr_info.insert(
        "feat-c".to_string(),
        make_mergeable_pr_info("feat-c", 3, "Add feature C"),
    );

    let plan = create_merge_plan(&analysis, &pr_info, &MergePlanOptions::default(), "main");

    // merge_count should only count Merge steps, not Skip steps
    assert_eq!(plan.merge_count(), 1);
    assert_eq!(plan.steps.len(), 2); // 1 Merge + 1 Skip
}

#[test]
fn test_create_merge_plan_uncertain_mergeable_has_uncertain_confidence() {
    // PR with is_mergeable: None should produce Merge with Uncertain confidence
    let graph = make_linear_stack(&["feat-a"]);
    let analysis = analyze_submission(&graph, Some("feat-a")).unwrap();

    let mut pr_info = PrInfoMap::new();
    pr_info.insert(
        "feat-a".to_string(),
        make_uncertain_pr_info("feat-a", 1, "Feature A"),
    );

    let plan = create_merge_plan(&analysis, &pr_info, &MergePlanOptions::default(), "main");

    assert!(!plan.is_empty());
    assert!(plan.has_actionable);
    match &plan.steps[0] {
        MergeStep::Merge { confidence, .. } => {
            assert!(matches!(confidence, MergeConfidence::Uncertain(_)));
            if let MergeConfidence::Uncertain(reason) = confidence {
                assert!(reason.contains("Merge status unknown"));
            }
        }
        _ => panic!("Expected Merge step"),
    }
}

#[test]
fn test_blocked_with_unknown_mergeable_still_skips() {
    // If not approved AND mergeable unknown, should Skip (blocker takes precedence)
    let graph = make_linear_stack(&["feat-a"]);
    let analysis = analyze_submission(&graph, Some("feat-a")).unwrap();

    let mut pr_info = PrInfoMap::new();
    let mut info = make_uncertain_pr_info("feat-a", 1, "Feature A");
    info.readiness.is_approved = false;
    info.readiness.blocking_reasons = vec!["Not approved".to_string()];
    pr_info.insert("feat-a".to_string(), info);

    let plan = create_merge_plan(&analysis, &pr_info, &MergePlanOptions::default(), "main");

    assert!(plan.is_empty()); // No Merge steps
    assert!(
        matches!(&plan.steps[0], MergeStep::Skip { reasons, .. } if reasons.contains(&"Not approved".to_string()))
    );
}

#[test]
fn test_merge_readiness_is_blocked() {
    let base = MergeReadiness {
        is_approved: true,
        ci_passed: true,
        is_mergeable: Some(true),
        is_draft: false,
        blocking_reasons: vec![],
        uncertainties: vec![],
    };
    assert!(!base.is_blocked());

    // Not approved blocks
    let mut r = base.clone();
    r.is_approved = false;
    assert!(r.is_blocked());

    // CI failing blocks
    let mut r = base.clone();
    r.ci_passed = false;
    assert!(r.is_blocked());

    // Conflicts block
    let mut r = base.clone();
    r.is_mergeable = Some(false);
    assert!(r.is_blocked());

    // Unknown does NOT block
    let mut r = base.clone();
    r.is_mergeable = None;
    assert!(!r.is_blocked());

    // Draft blocks
    let mut r = base;
    r.is_draft = true;
    assert!(r.is_blocked());
}

#[test]
fn test_merge_readiness_uncertainty() {
    let mut r = MergeReadiness {
        is_approved: true,
        ci_passed: true,
        is_mergeable: None,
        is_draft: false,
        blocking_reasons: vec![],
        uncertainties: vec![],
    };
    assert!(r.uncertainty().is_none());

    r.uncertainties = vec!["Reason 1".to_string()];
    assert_eq!(r.uncertainty(), Some("Reason 1"));

    r.uncertainties = vec!["Reason 1".to_string(), "Reason 2".to_string()];
    assert_eq!(r.uncertainty(), Some("Reason 1")); // Returns first only
}

#[test]
fn test_create_merge_plan_generates_retarget_steps() {
    // 3-PR stack, all mergeable
    // Expected: Merge(1), Retarget(2), Merge(2), Retarget(3), Merge(3)
    let graph = make_linear_stack(&["feat-a", "feat-b", "feat-c"]);
    let analysis = analyze_submission(&graph, Some("feat-c")).unwrap();

    let mut pr_info = PrInfoMap::new();
    pr_info.insert(
        "feat-a".to_string(),
        make_mergeable_pr_info_with_base("feat-a", 1, "Add feature A", "main"),
    );
    pr_info.insert(
        "feat-b".to_string(),
        make_mergeable_pr_info_with_base("feat-b", 2, "Add feature B", "feat-a"),
    );
    pr_info.insert(
        "feat-c".to_string(),
        make_mergeable_pr_info_with_base("feat-c", 3, "Add feature C", "feat-b"),
    );

    let plan = create_merge_plan(&analysis, &pr_info, &MergePlanOptions::default(), "main");

    // Should have 5 steps: Merge, Retarget, Merge, Retarget, Merge
    assert_eq!(plan.steps.len(), 5);
    assert_eq!(plan.merge_count(), 3);

    // Step 0: Merge PR1
    assert!(matches!(&plan.steps[0], MergeStep::Merge { pr_number: 1, .. }));

    // Step 1: Retarget PR2 from feat-a to main
    match &plan.steps[1] {
        MergeStep::RetargetBase {
            pr_number,
            old_base,
            new_base,
            ..
        } => {
            assert_eq!(*pr_number, 2);
            assert_eq!(old_base, "feat-a");
            assert_eq!(new_base, "main");
        }
        _ => panic!("Expected RetargetBase step at index 1"),
    }

    // Step 2: Merge PR2
    assert!(matches!(&plan.steps[2], MergeStep::Merge { pr_number: 2, .. }));

    // Step 3: Retarget PR3 from feat-b to main
    match &plan.steps[3] {
        MergeStep::RetargetBase {
            pr_number,
            old_base,
            new_base,
            ..
        } => {
            assert_eq!(*pr_number, 3);
            assert_eq!(old_base, "feat-b");
            assert_eq!(new_base, "main");
        }
        _ => panic!("Expected RetargetBase step at index 3"),
    }

    // Step 4: Merge PR3
    assert!(matches!(&plan.steps[4], MergeStep::Merge { pr_number: 3, .. }));

    // Verify trunk_branch is set
    assert_eq!(plan.trunk_branch, "main");
}

#[test]
fn test_create_merge_plan_no_retarget_after_skip() {
    // 3-PR stack, PR2 blocked
    // Expected: Merge(1), Skip(2) - no retarget because we stop at skip
    let graph = make_linear_stack(&["feat-a", "feat-b", "feat-c"]);
    let analysis = analyze_submission(&graph, Some("feat-c")).unwrap();

    let mut pr_info = PrInfoMap::new();
    pr_info.insert(
        "feat-a".to_string(),
        make_mergeable_pr_info_with_base("feat-a", 1, "Add feature A", "main"),
    );
    // PR2 is blocked
    pr_info.insert(
        "feat-b".to_string(),
        make_blocked_pr_info("feat-b", 2, "Add feature B", vec!["Not approved".to_string()]),
    );
    pr_info.insert(
        "feat-c".to_string(),
        make_mergeable_pr_info_with_base("feat-c", 3, "Add feature C", "feat-b"),
    );

    let plan = create_merge_plan(&analysis, &pr_info, &MergePlanOptions::default(), "main");

    // Should have 2 steps: Merge(1), Skip(2) - no retarget steps
    assert_eq!(plan.steps.len(), 2);
    assert_eq!(plan.merge_count(), 1);

    assert!(matches!(&plan.steps[0], MergeStep::Merge { pr_number: 1, .. }));
    assert!(matches!(&plan.steps[1], MergeStep::Skip { pr_number: 2, .. }));
}

#[test]
fn test_create_merge_plan_single_pr_no_retarget() {
    // 1-PR stack - nothing to retarget after last merge
    let graph = make_linear_stack(&["feat-a"]);
    let analysis = analyze_submission(&graph, Some("feat-a")).unwrap();

    let mut pr_info = PrInfoMap::new();
    pr_info.insert(
        "feat-a".to_string(),
        make_mergeable_pr_info_with_base("feat-a", 1, "Add feature A", "main"),
    );

    let plan = create_merge_plan(&analysis, &pr_info, &MergePlanOptions::default(), "main");

    // Should have 1 step: Merge only, no retarget
    assert_eq!(plan.steps.len(), 1);
    assert_eq!(plan.merge_count(), 1);
    assert!(matches!(&plan.steps[0], MergeStep::Merge { pr_number: 1, .. }));
}

#[test]
fn test_create_merge_plan_skips_redundant_retarget() {
    // If PR2 already targets main, no retarget needed
    let graph = make_linear_stack(&["feat-a", "feat-b"]);
    let analysis = analyze_submission(&graph, Some("feat-b")).unwrap();

    let mut pr_info = PrInfoMap::new();
    pr_info.insert(
        "feat-a".to_string(),
        make_mergeable_pr_info_with_base("feat-a", 1, "Add feature A", "main"),
    );
    // PR2 already targets main (unusual but possible)
    pr_info.insert(
        "feat-b".to_string(),
        make_mergeable_pr_info_with_base("feat-b", 2, "Add feature B", "main"),
    );

    let plan = create_merge_plan(&analysis, &pr_info, &MergePlanOptions::default(), "main");

    // Should have 2 steps: Merge, Merge - no retarget because base is already main
    assert_eq!(plan.steps.len(), 2);
    assert!(matches!(&plan.steps[0], MergeStep::Merge { pr_number: 1, .. }));
    assert!(matches!(&plan.steps[1], MergeStep::Merge { pr_number: 2, .. }));
}

fn plan_for(names: &[&str], infos: Vec<PrInfo>, target: Option<&str>) -> MergePlan {
    let analysis = analysis_of(names);
    let mut pr_info = PrInfoMap::new();
    for info in infos {
        pr_info.insert(info.bookmark.clone(), info);
    }
    let options = MergePlanOptions { target_bookmark: target.map(|t| t.to_string()) };
    create_merge_plan(&analysis, &pr_info, &options, "main")
}

#[test]
fn middle_blocked_leaves_top_untouched() {
    let plan = plan_for(
        &["bottom", "middle", "top"],
        vec![
            make_mergeable_pr_info("bottom", 10, "Bottom"),
            make_blocked_pr_info("middle", 11, "Middle", vec!["Not approved".to_string()]),
            make_mergeable_pr_info_with_base("top", 12, "Top", "middle"),
        ],
        None,
    );
    assert_eq!(plan.steps.len(), 2);
    assert!(matches!(&plan.steps[0], MergeStep::Merge { bookmark, pr_number: 10, .. } if bookmark == "bottom"));
    assert!(matches!(&plan.steps[1], MergeStep::Skip { bookmark, pr_number: 11, .. } if bookmark == "middle"));
    assert!(plan.steps.iter().all(|s| s.bookmark_name() != "top"));
    assert_eq!(plan.rebase_target, Some("middle".to_string()));
    assert_eq!(plan.bookmarks_to_clear, vec!["bottom"]);
}

#[test]
fn target_cuts_scope_even_without_pr_for_rest() {
    // The bookmark above the target becomes the rebase target whether or
    // not it has a PR.
    let plan = plan_for(
        &["a", "b", "c"],
        vec![make_mergeable_pr_info("a", 1, "A"), make_mergeable_pr_info("b", 2, "B")],
        Some("a"),
    );
    assert_eq!(plan.merge_count(), 1);
    assert_eq!(plan.bookmarks_to_clear, vec!["a"]);
    assert_eq!(plan.rebase_target, Some("b".to_string()));
    assert_eq!(plan.steps.len(), 1);
}

#[test]
fn target_that_is_not_in_stack_changes_nothing() {
    let plan = plan_for(
        &["a", "b"],
        vec![make_mergeable_pr_info("a", 1, "A"), make_mergeable_pr_info_with_base("b", 2, "B", "a")],
        Some("zzz"),
    );
    assert_eq!(plan.merge_count(), 2);
    assert_eq!(plan.steps.len(), 3);
    assert!(plan.rebase_target.is_none());
}

#[test]
fn blocker_wins_over_target_as_rebase_target() {
    let plan = plan_for(
        &["a", "b", "c"],
        vec![
            make_blocked_pr_info("a", 1, "A", vec!["Not approved".to_string()]),
            make_mergeable_pr_info("b", 2, "B"),
        ],
        Some("b"),
    );
    assert!(plan.is_empty());
    assert_eq!(plan.rebase_target, Some("a".to_string()));
    assert_eq!(plan.steps.len(), 1);
}

#[test]
fn retarget_skips_over_bookmark_without_pr() {
    // b has no PR: after a is merged, c (based on b) is pointed at trunk.
    let plan = plan_for(
        &["a", "b", "c"],
        vec![make_mergeable_pr_info("a", 1, "A"), make_mergeable_pr_info_with_base("c", 3, "C", "b")],
        None,
    );
    assert_eq!(plan.steps.len(), 3);
    assert!(matches!(&plan.steps[1], MergeStep::RetargetBase { bookmark, pr_number: 3, old_base, new_base } if bookmark == "c" && old_base == "b" && new_base == "main"));
    assert_eq!(plan.bookmarks_to_clear, vec!["a", "c"]);
}

#[test]
fn merge_step_descriptions() {
    let plan = plan_for(
        &["a", "b", "c"],
        vec![
            make_uncertain_pr_info("a", 7, "First"),
            make_mergeable_pr_info_with_base("b", 1234567890123, "Second", "a"),
            make_blocked_pr_info("c", 9, "Third", vec!["Not approved".to_string(), "CI not passing".to_string()]),
        ],
        None,
    );
    let lines: Vec<String> = plan.steps.iter().map(|s| s.describe()).collect();
    assert_eq!(
        lines,
        vec![
            "merge (uncertain) PR #7: First",
            "retarget PR #1234567890123: a → main",
            "merge PR #1234567890123: Second",
            "skip PR #9 (c): Not approved, CI not passing",
        ]
    );
    let empty_skip = MergeStep::Skip { bookmark: "x".to_string(), pr_number: 0, reasons: vec![] };
    assert_eq!(empty_skip.describe(), "skip PR #0 (x)");
    assert_eq!(empty_skip.bookmark_name(), "x");
    assert_eq!(MergeMethod::Squash.as_str(), "squash");
    assert_eq!(MergeMethod::Merge.as_str(), "merge");
    assert_eq!(MergeMethod::Rebase.as_str(), "rebase");
    assert_eq!(PrState::Open.as_str(), "open");
    assert_eq!(PrState::Closed.as_str(), "closed");
    assert_eq!(PrState::Merged.as_str(), "merged");
}

#[test]
fn has_actionable_agrees_with_merge_count() {
    for blocked_at in 0..4usize {
        let names = ["a", "b", "c"];
        let infos = names
            .iter()
            .enumerate()
            .map(|(i, n)| {
                if i == blocked_at {
                    make_blocked_pr_info(n, i as u64, n, vec!["Not approved".to_string()])
                } else {
                    make_mergeable_pr_info(n, i as u64, n)
                }
            })
            .collect();
        let plan = plan_for(&names, infos, None);
        assert_eq!(plan.has_actionable, plan.merge_count() > 0);
        assert_eq!(plan.is_empty(), plan.merge_count() == 0);
        assert_eq!(plan.merge_count(), blocked_at.min(3));
        assert_eq!(plan.bookmarks_to_clear.len(), plan.merge_count());
    }
}
