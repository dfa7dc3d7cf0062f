use pty_sessions::config::{
    expand_path, expand_path_with, parse_frontmatter, read_config_outcome, write_config_outcome,
    ReadFileOutcome, WriteFileOutcome,
};
use pty_sessions::git::{
    classify_branch_output, branch_from_output, detached_label, parse_ahead_behind,
    parse_branches, parse_commits, parse_status_line, summarize_status, BranchQuery,
};

#[test]
fn test_parse_frontmatter() {
    let content = "---\ndescription: \"Test command\"\n---\n\nCommand content here";
    let (desc, body) = parse_frontmatter(content);
    assert_eq!(desc, Some("Test command".to_string()));
    assert_eq!(body, "Command content here");
}

#[test]
fn test_parse_frontmatter_no_frontmatter() {
    let content = "Just plain content";
    let (desc, body) = parse_frontmatter(content);
    assert_eq!(desc, None);
    assert_eq!(body, "Just plain content");
}

#[test]
fn frontmatter_without_description_yields_body_only() {
    let content = "---\ntitle: x\n---\nBody";
    let (desc, body) = parse_frontmatter(content);
    assert_eq!(desc, None);
    assert_eq!(body, "Body");
}

#[test]
fn test_expand_path_home() {
    let path = expand_path("~/.config/settings.json");
    assert!(path.contains(".config"));
}

#[test]
fn test_expand_path_absolute() {
    let path = expand_path("/tmp/test.json");
    assert_eq!(path, "/tmp/test.json");
}

#[test]
fn expand_path_with_joins_home() {
    let home = Some("/home/someone".to_string());
    assert_eq!(expand_path_with("~/x/y", &home), "/home/someone/x/y");
    assert_eq!(expand_path_with("~/x", &None), "~/x");
    assert_eq!(expand_path_with("relative", &home), "relative");
}

#[test]
fn missing_config_reads_as_empty_object() {
    let r = read_config_outcome("~/.config/settings.json", ReadFileOutcome::Missing);
    assert!(r.success);
    assert_eq!(r.data, Some("{}".to_string()));
    let ok = read_config_outcome("p", ReadFileOutcome::Content("{\"a\":1}".to_string()));
    assert_eq!(ok.data, Some("{\"a\":1}".to_string()));
    let err = read_config_outcome("p", ReadFileOutcome::Failed("denied".to_string()));
    assert!(!err.success);
    assert_eq!(err.error, Some("Failed to read p: denied".to_string()));
}

#[test]
fn write_config_outcomes_map_to_messages() {
    let ok = write_config_outcome("p", WriteFileOutcome::Written);
    assert!(ok.success);
    let dir = write_config_outcome("p", WriteFileOutcome::DirFailed("full".to_string()));
    assert_eq!(dir.error, Some("Failed to create directory: full".to_string()));
    let failed = write_config_outcome("p", WriteFileOutcome::Failed("denied".to_string()));
    assert_eq!(failed.error, Some("Failed to write p: denied".to_string()));
}

#[test]
fn test_parse_status_line() {
    let modified = parse_status_line(" M src/main.rs");
    assert!(modified.is_some());
    let m = modified.unwrap();
    assert_eq!(m.status, "M");
    assert!(!m.staged);

    let staged = parse_status_line("M  src/main.rs");
    assert!(staged.is_some());
    let s = staged.unwrap();
    assert_eq!(s.status, "M");
    assert!(s.staged);

    let untracked = parse_status_line("?? new_file.txt");
    assert!(untracked.is_some());
    let u = untracked.unwrap();
    assert_eq!(u.status, "?");
}

#[test]
fn parse_status_line_fields_and_rejects() {
    assert!(parse_status_line("M  ").is_none());
    let d = parse_status_line(" D gone.txt").unwrap();
    assert_eq!(d.path, "gone.txt");
    assert_eq!(d.status_text, "deleted");
    let u = parse_status_line("UU both.rs").unwrap();
    assert_eq!(u.status_text, "unmerged");
    assert!(u.staged);
}

#[test]
fn summarize_status_counts_by_class() {
    let porcelain = "M  staged.rs\n M unstaged.rs\n?? new.txt\nUU conflict.rs\nxx\n";
    let s = summarize_status(porcelain);
    assert_eq!(s.files.len(), 4);
    assert_eq!(s.staged_count, 2);
    assert_eq!(s.unstaged_count, 1);
    assert_eq!(s.untracked_count, 1);
    assert!(s.has_conflicts);
    assert_eq!(s.files[0].path, "staged.rs");
    assert_eq!(s.files[3].status, "U");
}

#[test]
fn clean_tree_summarizes_to_nothing() {
    let s = summarize_status("");
    assert_eq!(s.files.len(), 0);
    assert_eq!(s.staged_count, 0);
    assert_eq!(s.unstaged_count, 0);
    assert_eq!(s.untracked_count, 0);
    assert!(!s.has_conflicts);
}

#[test]
fn parse_ahead_behind_reads_two_counters() {
    assert_eq!(parse_ahead_behind("1\t2\n"), (1, 2));
    assert_eq!(parse_ahead_behind("12\t0"), (12, 0));
    assert_eq!(parse_ahead_behind("garbage"), (0, 0));
    assert_eq!(parse_ahead_behind("x\ty"), (0, 0));
    assert_eq!(parse_ahead_behind(""), (0, 0));
}

#[test]
fn branch_output_classification() {
    assert_eq!(branch_from_output(true, "main\n"), Some("main".to_string()));
    assert_eq!(branch_from_output(true, "\n"), None);
    assert_eq!(branch_from_output(false, "main"), None);
    assert!(matches!(
        classify_branch_output(true, "dev\n"),
        BranchQuery::Found(b) if b == "dev"
    ));
    assert!(matches!(classify_branch_output(true, "  \n"), BranchQuery::Detached));
    assert!(matches!(classify_branch_output(false, ""), BranchQuery::Unknown));
    assert_eq!(detached_label("abc123\n"), "HEAD:abc123");
}

#[test]
fn parse_branches_marks_current_and_remote() {
    let out = "main*\ndev\nremotes/origin/main\norigin/feature\n\n";
    let branches = parse_branches(out);
    assert_eq!(branches.len(), 4);
    assert_eq!(branches[0].name, "main");
    assert!(branches[0].is_current);
    assert!(!branches[0].is_remote);
    assert!(!branches[1].is_current);
    assert!(branches[2].is_remote);
    assert!(branches[3].is_remote);
}

#[test]
fn parse_commits_reads_five_fields() {
    let out = "abcd|ab|fix: a|b thing|Someone|2 days ago\nbad line\n";
    let commits = parse_commits(out);
    assert_eq!(commits.len(), 1);
    assert_eq!(commits[0].hash, "abcd");
    assert_eq!(commits[0].short_hash, "ab");
    assert_eq!(commits[0].message, "fix: a");
    assert_eq!(commits[0].author, "b thing");
    assert_eq!(commits[0].date, "Someone|2 days ago");
}
