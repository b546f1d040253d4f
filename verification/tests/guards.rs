//! Scenario tests for the commit filter pipeline.

use commit_extractor::config::RunConfig;
use commit_extractor::diff::DiffLine;
use commit_extractor::diff::FileDiff;
use commit_extractor::pipeline::evaluate;
use commit_extractor::pipeline::is_bot_name;
use commit_extractor::pipeline::CommitInfo;
use commit_extractor::pipeline::Decision;
use commit_extractor::pipeline::DiffFetch;
use commit_extractor::pipeline::RejectReason;
use commit_extractor::traversal::Traversal;

fn config() -> RunConfig {
    RunConfig::new(
        vec!["py".to_string()],
        5,
        20,
        1,
        100,
        10,
    )
}

fn py_commit(id: u64) -> CommitInfo {
    CommitInfo {
        id,
        parent_count: 1,
        author_name: Some("alice".to_string()),
        message: Some("fix bug\nlong body".to_string()),
        diff: DiffFetch::Computed {
            files: vec![FileDiff {
                path: "a.py".to_string(),
                lines: vec![
                    DiffLine { origin: '+', content: "line1\n".to_string() },
                    DiffLine { origin: '+', content: "line2\n".to_string() },
                    DiffLine { origin: '+', content: "line3\n".to_string() },
                ],
            }],
        },
    }
}

fn decide(c: &CommitInfo) -> Decision {
    let cfg = config();
    let fresh = Traversal::new(config());
    evaluate(c, &cfg, &fresh.processed)
}

fn reason_of(d: Decision) -> RejectReason {
    match d {
        Decision::Reject { reason } => reason,
        Decision::Accept { .. } => panic!("expected a rejection"),
    }
}

#[test]
fn single_commit_adding_python_lines_is_accepted() {
    match decide(&py_commit(1)) {
        Decision::Accept { record } => {
            assert_eq!(record.commit_message, "fix bug");
            assert_eq!(record.commit_changes, "+line1\n+line2\n+line3\n");
        },
        Decision::Reject { reason } => panic!("unexpected rejection: {:?}", reason),
    }
}

#[test]
fn root_commit_is_rejected() {
    let mut c = py_commit(1);
    c.parent_count = 0;
    c.diff = DiffFetch::ParentUnavailable;
    assert_eq!(reason_of(decide(&c)), RejectReason::RootCommit);
}

#[test]
fn unresolvable_parent_is_rejected() {
    let mut c = py_commit(1);
    c.diff = DiffFetch::ParentUnavailable;
    assert_eq!(reason_of(decide(&c)), RejectReason::ParentFetchFailure);
}

#[test]
fn bot_author_is_rejected() {
    let mut c = py_commit(1);
    c.author_name = Some("dependabot[bot]".to_string());
    assert_eq!(reason_of(decide(&c)), RejectReason::BotAuthor);
}

#[test]
fn bot_detection_ignores_ascii_case() {
    assert!(is_bot_name("RoBOtic"));
    assert!(is_bot_name("BOT"));
    assert!(!is_bot_name("alice"));
    assert!(!is_bot_name("bo"));
    assert!(!is_bot_name(""));
}

#[test]
fn empty_message_is_rejected() {
    let mut c = py_commit(1);
    c.message = Some("".to_string());
    assert_eq!(reason_of(decide(&c)), RejectReason::MessageLength);
}

#[test]
fn missing_message_is_rejected() {
    let mut c = py_commit(1);
    c.message = None;
    assert_eq!(reason_of(decide(&c)), RejectReason::MessageLength);
}

#[test]
fn short_subject_is_rejected() {
    let mut c = py_commit(1);
    c.message = Some("fix\nbody".to_string());
    assert_eq!(reason_of(decide(&c)), RejectReason::MessageLength);
}

#[test]
fn merge_subject_is_rejected_regardless_of_diff() {
    let mut c = py_commit(1);
    c.message = Some("Merge branch 'main'".to_string());
    assert_eq!(reason_of(decide(&c)), RejectReason::MergeMessage);
}

#[test]
fn diff_failure_is_rejected() {
    let mut c = py_commit(1);
    c.diff = DiffFetch::Failed;
    assert_eq!(reason_of(decide(&c)), RejectReason::DiffFailure);
}

#[test]
fn mixed_extension_commit_is_rejected() {
    let mut c = py_commit(1);
    c.diff = DiffFetch::Computed {
        files: vec![
            FileDiff {
                path: "a.py".to_string(),
                lines: vec![DiffLine { origin: '+', content: "x\n".to_string() }],
            },
            FileDiff {
                path: "b.txt".to_string(),
                lines: vec![DiffLine { origin: '+', content: "y\n".to_string() }],
            },
        ],
    };
    assert_eq!(reason_of(decide(&c)), RejectReason::NoPureChanges);
}

#[test]
fn oversized_changes_are_rejected() {
    let mut c = py_commit(1);
    let long = "x".repeat(200);
    c.diff = DiffFetch::Computed {
        files: vec![FileDiff {
            path: "a.py".to_string(),
            lines: vec![DiffLine { origin: '+', content: long }],
        }],
    };
    assert_eq!(reason_of(decide(&c)), RejectReason::ChangesLength);
}

#[test]
fn undersized_changes_are_rejected() {
    let mut c = py_commit(1);
    c.diff = DiffFetch::Computed {
        files: vec![FileDiff { path: "a.py".to_string(), lines: Vec::new() }],
    };
    assert_eq!(reason_of(decide(&c)), RejectReason::ChangesLength);
}

#[test]
fn processed_commit_is_rejected() {
    let cfg = config();
    let mut t = Traversal::new(config());
    let c = py_commit(7);
    t.visit_commit(&c);
    assert_eq!(reason_of(evaluate(&c, &cfg, &t.processed)), RejectReason::AlreadyProcessed);
}
