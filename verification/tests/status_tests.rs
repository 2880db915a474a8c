use git_super::status::{head_remote_state, parse_status, read_decoration, status_is_readable};

#[test]
fn branch_line_with_tracking_and_note() {
    let s = parse_status("## main...origin/main [ahead 2]\n M src/a.rs\n?? new.txt\nA  b.rs\n");
    assert_eq!(s.current_branch, "main");
    assert_eq!(s.tracking_branch, "origin/main");
    assert_eq!(s.status, "[ahead 2]");
    assert_eq!(s.modified_files, vec![" M src/a.rs".to_string(), "A  b.rs".to_string()]);
}

#[test]
fn branch_line_without_tracking_branch() {
    let s = parse_status("## feature\n");
    assert_eq!(s.current_branch, "feature");
    assert_eq!(s.tracking_branch, "no tracking branch");
    assert_eq!(s.status, "");
    assert!(s.modified_files.is_empty());
}

#[test]
fn branch_line_tracking_without_note() {
    let s = parse_status("## dev...origin/dev\n");
    assert_eq!(s.current_branch, "dev");
    assert_eq!(s.tracking_branch, "origin/dev");
    assert_eq!(s.status, "");
}

#[test]
fn behind_and_ahead_note() {
    let s = parse_status("## x...up/x [ahead 1, behind 3]\n");
    assert_eq!(s.tracking_branch, "up/x");
    assert_eq!(s.status, "[ahead 1, behind 3]");
}

#[test]
fn bracket_right_after_dots_leaves_tracking_empty() {
    let s = parse_status("## a...[gone]\n");
    assert_eq!(s.current_branch, "a");
    assert_eq!(s.tracking_branch, "");
    assert_eq!(s.status, "[gone]");
}

#[test]
fn empty_output_gives_empty_status() {
    let s = parse_status("");
    assert_eq!(s.current_branch, "");
    assert_eq!(s.tracking_branch, "");
    assert_eq!(s.status, "");
    assert!(s.modified_files.is_empty());
}

#[test]
fn short_branch_line_gives_empty_status() {
    let s = parse_status("ab\n M x\n");
    assert_eq!(s.current_branch, "");
    assert!(s.modified_files.is_empty());
}

#[test]
fn empty_lines_are_skipped() {
    let s = parse_status("\n\n## m\n\n M f\n\n");
    assert_eq!(s.current_branch, "m");
    assert_eq!(s.modified_files, vec![" M f".to_string()]);
}

#[test]
fn non_ascii_branch_names_are_kept_whole() {
    let s = parse_status("## é-branch...origin/é [ahead 1]\n");
    assert_eq!(s.current_branch, "é-branch");
    assert_eq!(s.tracking_branch, "origin/é");
}

#[test]
fn readable_outputs() {
    assert!(status_is_readable("## main...origin/main [ahead 2]\n"));
    assert!(status_is_readable(""));
    assert!(status_is_readable("ab"));
    assert!(!status_is_readable("...abc"));
    assert!(status_is_readable("éa..."));
    assert!(!status_is_readable("a€bc"));
    assert!(!status_is_readable("é...x"));
    assert!(!status_is_readable("## a...b\u{e9}[x]"));
}

#[test]
fn decoration_tags_and_remote_branches() {
    let (tags, remotes) = read_decoration(
        "abc1234 (HEAD -> main, tag: v1.0, origin/feature, origin/master, origin/develop, origin/HEAD, tag: v2) msg",
    );
    assert_eq!(tags, vec!["v1.0".to_string(), "v2".to_string()]);
    assert_eq!(remotes, vec!["feature".to_string()]);
}

#[test]
fn decoration_missing_gives_nothing() {
    let (tags, remotes) = read_decoration("abc1234 message without parens");
    assert!(tags.is_empty());
    assert!(remotes.is_empty());
    let (tags, remotes) = read_decoration("abc (unterminated");
    assert!(tags.is_empty());
    assert!(remotes.is_empty());
}

#[test]
fn decoration_only_first_parenthesis_counts() {
    let (tags, _) = read_decoration("c1 (tag: a) text (tag: b)");
    assert_eq!(tags, vec!["a".to_string()]);
}

#[test]
fn failed_head_log_gives_nothing() {
    let (tags, remotes) = head_remote_state(&Err("fatal".to_string()));
    assert!(tags.is_empty());
    assert!(remotes.is_empty());
    let (tags, remotes) = head_remote_state(&Ok("x (tag: t, origin/f)".to_string()));
    assert_eq!(tags, vec!["t".to_string()]);
    assert_eq!(remotes, vec!["f".to_string()]);
}
