use git_super::project::ProjectInfo;
use git_super::render::{ahead_log_args, render_command, render_command_project, render_status, render_status_project, Segment, Style};
use git_super::report::gather;
use git_super::status::RepoStatus;

fn info(name: &str, tracking: &str, status: &str, files: &[&str]) -> ProjectInfo {
    ProjectInfo {
        name: name.to_string(),
        dir: format!("./{}", name),
        repo_status: RepoStatus {
            current_branch: "main".to_string(),
            tracking_branch: tracking.to_string(),
            status: status.to_string(),
            modified_files: files.iter().map(|s| s.to_string()).collect(),
        },
        cmd_output: String::new(),
        cmd_error: None,
        tags: Vec::new(),
        remote_branches: Vec::new(),
    }
}

fn texts(segs: &[Segment]) -> Vec<(String, Style, bool)> {
    segs.iter().map(|s| (s.text.clone(), s.style, s.newline)).collect()
}

#[test]
fn ahead_arguments() {
    assert_eq!(
        ahead_log_args("[ahead 3]"),
        Some(vec!["log".to_string(), "--oneline".to_string(), "-n3".to_string()])
    );
    assert_eq!(
        ahead_log_args("[ahead 12, behind 1]"),
        Some(vec!["log".to_string(), "--oneline".to_string(), "-n12".to_string()])
    );
    assert_eq!(ahead_log_args("[behind 2]"), None);
    assert_eq!(ahead_log_args(""), None);
}

#[test]
fn gather_groups_by_tracking_branch() {
    let results = vec![
        (Some(info("b", "origin/main", "", &[])), None),
        (None, Some("url1".to_string())),
        (Some(info("a", "origin/dev", "", &[])), None),
        (Some(info("c", "origin/main", "", &[])), None),
        (Some(info("a2", "origin/main", "", &[])), Some("url2".to_string())),
    ];
    let (groups, urls) = gather(results);
    assert_eq!(urls, vec!["url1".to_string(), "url2".to_string()]);
    let keys: Vec<&str> = groups.iter().map(|g| g.tracking_branch.as_str()).collect();
    assert_eq!(keys, vec!["origin/dev", "origin/main"]);
    let names: Vec<&str> = groups[1].projects.iter().map(|p| p.name.as_str()).collect();
    assert_eq!(names, vec!["a2", "b", "c"]);
}

#[test]
fn status_lines_of_a_clean_repository() {
    let p = info("proj", "origin/main", "", &[]);
    let segs = render_status_project(&p, &None);
    assert_eq!(
        texts(&segs),
        vec![
            (format!("    {:<20}", "proj"), Style::Dimmed, false),
            (format!("{:>10} {:>15}{:>20} {:<20}", "main", "", "", ""), Style::Dimmed, true),
        ]
    );
}

#[test]
fn status_lines_of_a_dirty_ahead_repository() {
    let mut p = info("proj", "origin/main", "[ahead 2]", &[" M a.rs"]);
    p.tags = vec!["v1".to_string(), "v2".to_string()];
    p.remote_branches = vec!["f".to_string()];
    let segs = render_status_project(&p, &Some(Ok("c1 one\nc2 two".to_string())));
    assert_eq!(
        texts(&segs),
        vec![
            (format!("    {:<20}", "proj"), Style::Yellow, false),
            (format!("{:>10} {:>15}{:>20} {:<20}", "main", "[ahead 2]", "v1,v2", "f"), Style::Plain, true),
            ("        c1 one".to_string(), Style::BrightBlue, true),
            ("        c2 two".to_string(), Style::BrightBlue, true),
            ("         M a.rs".to_string(), Style::Plain, true),
        ]
    );
}

#[test]
fn status_log_failure_in_red_and_diverged_in_green() {
    let p = info("p", "o/m", "[ahead 1]", &[]);
    let segs = render_status_project(&p, &Some(Err("bad".to_string())));
    assert_eq!(segs[0].style, Style::Green);
    assert_eq!(texts(&segs[2..]), vec![("bad".to_string(), Style::Red, true)]);
}

#[test]
fn padding_counts_characters() {
    let p = info("ééé", "o", "", &[]);
    let segs = render_status_project(&p, &None);
    assert_eq!(segs[0].text, format!("    {:<20}", "ééé"));
    let long = info("a-very-long-repository-name", "o", "", &[]);
    assert_eq!(render_status_project(&long, &None)[0].text, "    a-very-long-repository-name");
}

#[test]
fn command_output_lines() {
    let mut p = info("p", "o", "", &[]);
    p.cmd_output = "line1\n\nline2\n".to_string();
    let segs = render_command_project(&p);
    assert_eq!(
        texts(&segs),
        vec![
            (format!("    {:<20}", "p"), Style::Dimmed, false),
            (format!("{:>10} {}", "main", ""), Style::Dimmed, true),
            ("        line1".to_string(), Style::Dimmed, true),
            ("        line2".to_string(), Style::Dimmed, true),
        ]
    );
}

#[test]
fn command_error_lines_red_bold() {
    let mut p = info("p", "o", "", &["M x"]);
    p.cmd_error = Some("fatal: a\nfatal: b".to_string());
    let segs = render_command_project(&p);
    assert_eq!(
        texts(&segs[2..]),
        vec![
            ("        M x".to_string(), Style::Plain, true),
            ("        fatal: a".to_string(), Style::RedBold, true),
            ("        fatal: b".to_string(), Style::RedBold, true),
        ]
    );
}

#[test]
fn whole_reports_start_groups_with_their_branch() {
    let (groups, _) = gather(vec![(Some(info("a", "origin/x", "", &[])), None)]);
    let segs = render_command(&groups);
    assert_eq!(texts(&segs[..1]), vec![("origin/x".to_string(), Style::Bold, true)]);
    assert_eq!(segs.len(), 3);
    let segs = render_status(&groups, &vec![vec![None]]);
    assert_eq!(segs[0].text, "origin/x");
    assert_eq!(segs.len(), 3);
}
