use git_super::config::AliasMap;
use git_super::plan::Action;
use git_super::project::{advance, ProjectInfo, Request, Stage};

fn words(ws: &[&str]) -> Vec<String> {
    ws.iter().map(|s| s.to_string()).collect()
}

/// Runs the steps of one repository against canned replies.
fn run(action: &Action, cmd: &[&str], replies: &mut Vec<Option<Result<String, String>>>) -> (Vec<String>, Option<ProjectInfo>, Option<String>) {
    run_as(action, cmd, "tok", "acme", replies)
}

/// As `run`, with the given GitHub token and org.
fn run_as(
    action: &Action,
    cmd: &[&str],
    token: &str,
    org: &str,
    replies: &mut Vec<Option<Result<String, String>>>,
) -> (Vec<String>, Option<ProjectInfo>, Option<String>) {
    let cmd = words(cmd);
    let mut log = Vec::new();
    let mut stage = Stage::Start;
    let mut reply = None;
    for _ in 0..20 {
        let (next, req) = advance(action, &cmd, token, org, "repo", "/r", stage, reply);
        stage = next;
        match req {
            Request::Finish(info, url) => return (log, info, url),
            Request::Git(a) => log.push(format!("git {}", a.join(" "))),
            Request::LogGrep(a) => log.push(format!("log|grep {}", a.join(" "))),
            Request::Status => log.push("status".to_string()),
            Request::HeadLog => log.push("head".to_string()),
            Request::Say(s) => log.push(format!("say {}", s)),
            Request::Push(r) => log.push(format!("push {}", r)),
            Request::OpenPr {
                url,
                authorization,
                accept,
                user_agent,
                title,
                head,
                base,
                body,
                maintainer_can_modify,
            } => log.push(format!(
                "open {} [{}] [{}] [{}] {} {} {} [{}] {}",
                url, authorization, accept, user_agent, title, head, base, body, maintainer_can_modify
            )),
            Request::Warn(s) => log.push(format!("warn {}", s)),
        }
        reply = replies.remove(0);
    }
    panic!("did not finish");
}

fn ok(s: &str) -> Option<Result<String, String>> {
    Some(Ok(s.to_string()))
}

#[test]
fn status_action_reads_status_and_head() {
    let mut replies = vec![ok("## main...origin/main\n M a\n"), ok("c (tag: v1, origin/f)")];
    let (log, info, url) = run(&Action::Status, &["status"], &mut replies);
    assert_eq!(log, vec!["status", "head"]);
    let info = info.unwrap();
    assert_eq!(info.name, "repo");
    assert_eq!(info.dir, "/r");
    assert_eq!(info.repo_status.tracking_branch, "origin/main");
    assert_eq!(info.repo_status.modified_files, vec![" M a".to_string()]);
    assert_eq!(info.tags, vec!["v1".to_string()]);
    assert_eq!(info.remote_branches, vec!["f".to_string()]);
    assert_eq!(info.cmd_output, "");
    assert!(info.cmd_error.is_none());
    assert!(url.is_none());
}

#[test]
fn generic_action_runs_the_command() {
    let mut replies = vec![ok("fetched"), ok("## main\n"), Some(Err("no log".to_string()))];
    let (log, info, _) = run(&Action::Generic, &["fetch", "--all"], &mut replies);
    assert_eq!(log, vec!["git fetch --all", "status", "head"]);
    let info = info.unwrap();
    assert_eq!(info.cmd_output, "fetched");
    assert!(info.tags.is_empty());
}

#[test]
fn failed_command_is_reported() {
    let mut replies = vec![Some(Err("boom".to_string())), ok("## main\n"), ok("x")];
    let (_, info, _) = run(&Action::Generic, &["pull"], &mut replies);
    let info = info.unwrap();
    assert_eq!(info.cmd_output, "");
    assert_eq!(info.cmd_error, Some("boom".to_string()));
}

#[test]
fn grep_searches_the_log() {
    let mut replies = vec![ok("abc fix"), ok("## main\n"), ok("x")];
    let (log, info, _) = run(&Action::Grep, &["grep", "-i", "fix"], &mut replies);
    assert_eq!(log, vec!["log|grep -i fix", "status", "head"]);
    assert_eq!(info.unwrap().cmd_output, "abc fix");
}

fn alias() -> AliasMap {
    AliasMap { entries: vec![("repo".to_string(), "release/1.5.x".to_string())] }
}

#[test]
fn checkout_alias_resolved() {
    let action = Action::Checkout {
        new_branch: Some("new_feature".to_string()),
        alias_map: Some(alias()),
        raw_target: "lts-1.5".to_string(),
    };
    let mut replies = vec![ok(""), ok("## new_feature\n"), ok("x")];
    let (log, _, _) = run(&action, &["checkout", "-b", "new_feature", "lts-1.5"], &mut replies);
    assert_eq!(log[0], "git checkout -b new_feature release/1.5.x");
}

#[test]
fn checkout_alias_without_entry() {
    let action = Action::Checkout {
        new_branch: None,
        alias_map: Some(AliasMap { entries: vec![("other".to_string(), "b".to_string())] }),
        raw_target: "lts".to_string(),
    };
    let mut replies = vec![ok("## main\n"), ok("x")];
    let (log, info, _) = run(&action, &["checkout", "lts"], &mut replies);
    assert_eq!(log, vec!["status", "head"]);
    assert_eq!(info.unwrap().cmd_error, Some("no branch alias entry for repo".to_string()));
}

#[test]
fn checkout_passthrough_and_new_branch() {
    let action = Action::Checkout { new_branch: None, alias_map: None, raw_target: "main".to_string() };
    let mut replies = vec![ok(""), ok("## main\n"), ok("x")];
    let (log, _, _) = run(&action, &["checkout", "main"], &mut replies);
    assert_eq!(log[0], "git checkout main");
    let action = Action::Checkout { new_branch: Some("nb".to_string()), alias_map: None, raw_target: String::new() };
    let mut replies = vec![ok(""), ok("## nb\n"), ok("x")];
    let (log, _, _) = run(&action, &["checkout", "-b", "nb"], &mut replies);
    assert_eq!(log[0], "git checkout -b nb");
}

#[test]
fn pr_opened_where_log_matches() {
    let mut replies = vec![
        ok("abc fix thing\n"),
        ok("## work...origin/develop\n"),
        None,
        ok(""),
        ok(r#"{"number": 1, "html_url": "https://github.com/x/pull/1"}"#),
        None,
    ];
    let (log, info, url) = run(&Action::Pr, &["pr", "fix", "my-branch"], &mut replies);
    assert_eq!(
        log,
        vec![
            "log|grep fix",
            "status",
            "say repo - /r:",
            "push HEAD:my-branch",
            "open https://api.github.com/repos/acme/repo/pulls [token tok] [application/vnd.github+json] [git-super] my-branch my-branch develop [] true",
            "say PR created: https://github.com/x/pull/1",
        ]
    );
    assert!(info.is_none());
    assert_eq!(url, Some("https://github.com/x/pull/1".to_string()));
}

#[test]
fn pr_skipped_where_log_is_blank() {
    let mut replies = vec![ok(" \n\t"), ok("## work...origin/develop\n")];
    let (log, info, url) = run(&Action::Pr, &["pr", "fix", "b"], &mut replies);
    assert_eq!(log, vec!["log|grep fix", "status"]);
    assert!(info.is_none());
    assert!(url.is_none());
}

#[test]
fn pr_push_failure_is_warned() {
    let mut replies = vec![ok("abc fix"), ok("## w...a/b/c\n"), None, Some(Err("denied".to_string())), None];
    let (log, info, url) = run(&Action::Pr, &["pr", "fix", "b"], &mut replies);
    assert_eq!(log[4], "warn error creating PR for repo: denied");
    assert!(info.is_none() && url.is_none());
}

#[test]
fn pr_merge_target_without_slash_pair() {
    let mut replies = vec![ok("abc fix"), ok("## w...a/b/c\n"), None, ok(""), Some(Err("bad".to_string())), None];
    let (log, _, _) = run(&Action::Pr, &["pr", "fix", "b"], &mut replies);
    assert_eq!(
        log[4],
        "open https://api.github.com/repos/acme/repo/pulls [token tok] [application/vnd.github+json] [git-super] b b a/b/c [] true"
    );
    assert_eq!(log[5], "warn error creating PR for repo: bad");
}

fn pr_replies() -> Vec<Option<Result<String, String>>> {
    vec![ok("abc fix\n"), ok("## w...origin/main\n"), None, ok(""), ok(r#"{"html_url":"https://github.com/x/pull/2"}"#), None]
}

#[test]
fn token_only_in_authorization_header() {
    let (log1, info1, url1) = run_as(&Action::Pr, &["pr", "fix", "b"], "one", "acme", &mut pr_replies());
    let (log2, info2, url2) = run_as(&Action::Pr, &["pr", "fix", "b"], "two", "acme", &mut pr_replies());
    assert_eq!(log1.len(), log2.len());
    for i in 0..log1.len() {
        if i == 4 {
            assert!(log1[i].contains("[token one]"));
            assert_eq!(log1[i].replace("[token one]", "[token two]"), log2[i]);
        } else {
            assert_eq!(log1[i], log2[i]);
        }
    }
    assert!(info1.is_none() && info2.is_none());
    assert_eq!(url1, url2);
}

#[test]
fn pr_url_names_the_configured_org() {
    let (log, _, _) = run_as(&Action::Pr, &["pr", "fix", "b"], "tok", "my-github-org", &mut pr_replies());
    assert!(log[4].starts_with("open https://api.github.com/repos/my-github-org/repo/pulls "));
}

#[test]
fn token_and_org_unused_outside_pr() {
    let replies = || vec![ok("fetched"), ok("## main...origin/main\n"), ok("c (tag: v2)")];
    let a = run_as(&Action::Generic, &["fetch"], "one", "acme", &mut replies());
    let b = run_as(&Action::Generic, &["fetch"], "two", "other", &mut replies());
    assert_eq!(a.0, b.0);
    assert_eq!(a.2, b.2);
    let (ia, ib) = (a.1.unwrap(), b.1.unwrap());
    assert_eq!(ia.name, "repo");
    assert_eq!(ia.dir, "/r");
    assert_eq!(ia.name, ib.name);
    assert_eq!(ia.cmd_output, ib.cmd_output);
    assert_eq!(ia.tags, ib.tags);
}

#[test]
fn pr_reply_that_is_not_json_is_warned() {
    let mut replies = vec![ok("abc fix"), ok("## w...origin/main\n"), None, ok(""), ok("<html>"), None];
    let (log, info, url) = run(&Action::Pr, &["pr", "fix", "b"], &mut replies);
    assert_eq!(log.len(), 6);
    assert!(log[5].starts_with("warn error creating PR for repo: Failed to read JSON: "));
    assert!(info.is_none() && url.is_none());
}

#[test]
fn pr_reply_without_url_gives_empty_url() {
    let mut replies = vec![ok("abc fix"), ok("## w...origin/main\n"), None, ok(""), ok(r#"{"id": 7}"#), None];
    let (log, _, url) = run(&Action::Pr, &["pr", "fix", "b"], &mut replies);
    assert_eq!(log[5], "say PR created: ");
    assert_eq!(url, Some(String::new()));
}
