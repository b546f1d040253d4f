//! Unit tests for the message filter, the extension logic and the
//! configuration.

use commit_extractor::config::RunConfig;
use commit_extractor::diff::compute;
use commit_extractor::diff::extension_of;
use commit_extractor::diff::DiffLine;
use commit_extractor::diff::FileDiff;
use commit_extractor::message::accept;
use commit_extractor::message::looks_like_merge;
use commit_extractor::message::subject_of;

fn config_with(exts: &[&str], msg_min: usize, msg_max: usize) -> RunConfig {
    RunConfig::new(
        exts.iter().map(|e| e.to_string()).collect(),
        msg_min,
        msg_max,
        1,
        1024,
        10,
    )
}

#[test]
fn subject_is_first_line() {
    assert_eq!(subject_of("fix bug\nlong body\n"), Some("fix bug".to_string()));
    assert_eq!(subject_of("fix bug"), Some("fix bug".to_string()));
}

#[test]
fn subject_of_empty_message_is_none() {
    assert_eq!(subject_of(""), None);
}

#[test]
fn subject_strips_carriage_return_before_line_feed() {
    assert_eq!(subject_of("fix bug\r\nbody"), Some("fix bug".to_string()));
    assert_eq!(subject_of("fix bug\r"), Some("fix bug\r".to_string()));
}

#[test]
fn subject_of_leading_newline_is_empty() {
    assert_eq!(subject_of("\nbody"), Some("".to_string()));
}

#[test]
fn accept_applies_length_bounds_inclusively() {
    let cfg = config_with(&["py"], 5, 7);
    assert!(accept(&cfg, "12345"));
    assert!(accept(&cfg, "1234567"));
    assert!(!accept(&cfg, "1234"));
    assert!(!accept(&cfg, "12345678"));
}

#[test]
fn merge_prefixes_are_recognized() {
    assert!(looks_like_merge("Merge pull request #7 from a/b"));
    assert!(looks_like_merge("Merge branch 'main'"));
    assert!(!looks_like_merge("Merged stuff"));
    assert!(!looks_like_merge("merge branch 'main'"));
    assert!(!looks_like_merge("fix Merge branch handling"));
}

#[test]
fn extension_follows_last_dot_of_final_component() {
    assert_eq!(extension_of("src/a.py"), Some("py".to_string()));
    assert_eq!(extension_of("a.tar.gz"), Some("gz".to_string()));
    assert_eq!(extension_of("README"), None);
    assert_eq!(extension_of(".gitignore"), None);
    assert_eq!(extension_of("dir.d/file"), None);
    assert_eq!(extension_of("dir/.hidden.swp"), Some("swp".to_string()));
}

#[test]
fn config_deduplicates_extensions() {
    let cfg = config_with(&["py", "rs", "py"], 5, 20);
    let exts: Vec<&str> = cfg.extensions.iter().map(|s| s.as_str()).collect();
    assert_eq!(exts, vec!["py", "rs"]);
}

fn file(path: &str, lines: &[(char, &str)]) -> FileDiff {
    FileDiff {
        path: path.to_string(),
        lines: lines
            .iter()
            .map(|(o, c)| DiffLine { origin: *o, content: c.to_string() })
            .collect(),
    }
}

#[test]
fn changes_concatenate_origin_and_content() {
    let cfg = config_with(&["py"], 5, 20);
    let files = vec![file(
        "a.py",
        &[('+', "line1\n"), ('-', "line2\n"), (' ', "line3\n")],
    )];
    assert_eq!(compute(&cfg, &files), Some("+line1\n-line2\n line3\n".to_string()));
}

#[test]
fn mixed_extensions_yield_nothing() {
    let cfg = config_with(&["py"], 5, 20);
    let files = vec![file("a.py", &[('+', "x\n")]), file("b.txt", &[('+', "y\n")])];
    assert_eq!(compute(&cfg, &files), None);
}

#[test]
fn missing_extension_counts_as_foreign() {
    let cfg = config_with(&["py"], 5, 20);
    let files = vec![file("a.py", &[('+', "x\n")]), file("Makefile", &[('+', "y\n")])];
    assert_eq!(compute(&cfg, &files), None);
}

#[test]
fn empty_diff_yields_nothing() {
    let cfg = config_with(&["py"], 5, 20);
    assert_eq!(compute(&cfg, &Vec::new()), None);
}
