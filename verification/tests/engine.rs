//! Scenario tests for the traversal engine.

use commit_extractor::config::RunConfig;
use commit_extractor::diff::DiffLine;
use commit_extractor::diff::FileDiff;
use commit_extractor::pipeline::CommitInfo;
use commit_extractor::pipeline::DiffFetch;
use commit_extractor::traversal::Candidate;
use commit_extractor::traversal::Traversal;

fn config_sized(size: usize) -> RunConfig {
    RunConfig::new(vec!["py".to_string()], 5, 20, 1, 100, size)
}

fn qualifying(id: u64, subject: &str) -> CommitInfo {
    CommitInfo {
        id,
        parent_count: 1,
        author_name: Some("alice".to_string()),
        message: Some(format!("{}\nbody", subject)),
        diff: DiffFetch::Computed {
            files: vec![FileDiff {
                path: "a.py".to_string(),
                lines: vec![DiffLine { origin: '+', content: "line\n".to_string() }],
            }],
        },
    }
}

fn single(c: CommitInfo) -> Candidate {
    Candidate { info: c, parents: Vec::new() }
}

#[test]
fn merge_parents_are_evaluated_independently() {
    let mut t = Traversal::new(config_sized(10));
    let mut bot = qualifying(3, "tidy things");
    bot.author_name = Some("release-bot".to_string());
    let merge = Candidate {
        info: CommitInfo {
            id: 1,
            parent_count: 2,
            author_name: Some("alice".to_string()),
            message: Some("Merge branch 'main'".to_string()),
            diff: DiffFetch::Failed,
        },
        parents: vec![qualifying(2, "fix parser"), bot],
    };
    t.visit(&merge);
    assert_eq!(t.saved_count(), 1);
    assert_eq!(t.processed_count(), 2);
    let records = t.into_records();
    assert_eq!(records[0].commit_message, "fix parser");
    assert_eq!(records[0].commit_changes, "+line\n");
}

#[test]
fn identifier_is_never_evaluated_twice() {
    let mut t = Traversal::new(config_sized(10));
    let c = qualifying(5, "fix parser");
    t.visit(&single(c.clone()));
    t.visit(&single(c));
    assert_eq!(t.saved_count(), 1);
    assert_eq!(t.processed_count(), 1);
}

#[test]
fn shared_parent_of_two_merges_is_evaluated_once() {
    let mut t = Traversal::new(config_sized(10));
    let merge = |id: u64| Candidate {
        info: CommitInfo {
            id,
            parent_count: 2,
            author_name: Some("alice".to_string()),
            message: None,
            diff: DiffFetch::Failed,
        },
        parents: vec![qualifying(100, "fix parser"), qualifying(id * 10, "add checks")],
    };
    t.visit(&merge(1));
    t.visit(&merge(2));
    assert_eq!(t.saved_count(), 3);
    assert_eq!(t.processed_count(), 3);
}

#[test]
fn saved_count_never_exceeds_target_size() {
    let mut t = Traversal::new(config_sized(1));
    t.visit(&single(qualifying(1, "fix parser")));
    assert!(t.done());
    t.visit(&single(qualifying(2, "add checks")));
    assert_eq!(t.saved_count(), 1);
    assert_eq!(t.processed_count(), 1);
}

#[test]
fn merge_expansion_respects_target_size() {
    let mut t = Traversal::new(config_sized(1));
    let merge = Candidate {
        info: CommitInfo {
            id: 1,
            parent_count: 2,
            author_name: Some("alice".to_string()),
            message: None,
            diff: DiffFetch::Failed,
        },
        parents: vec![qualifying(2, "fix parser"), qualifying(3, "add checks")],
    };
    t.visit(&merge);
    assert_eq!(t.saved_count(), 1);
    assert!(t.done());
}

#[test]
fn zero_parent_commit_yields_no_record() {
    let mut t = Traversal::new(config_sized(10));
    let mut root = qualifying(9, "fix parser");
    root.parent_count = 0;
    root.diff = DiffFetch::ParentUnavailable;
    t.visit(&single(root));
    assert_eq!(t.saved_count(), 0);
    assert_eq!(t.processed_count(), 1);
}
