use git_super::plan::{is_discover, org_of, plan, subprojects, token_of, Action, UsageError};
use ini::Ini;

fn ini(text: &str) -> Ini {
    Ini::load_from_str(text).unwrap()
}

fn words(ws: &[&str]) -> Vec<String> {
    ws.iter().map(|s| s.to_string()).collect()
}

const CONFIG: &str = "[subprojects]\nzeta = ./z\nalpha = ./a\nmid = ./m\n[commands]\nstatus = yes\ngrep = yes\npr = yes\ncheckout = yes\nfetch = yes\n[github]\ntoken = t0k\norg = acme\n[branch_alias.lts]\nalpha = release-1\n";

#[test]
fn unsupported_command_refused() {
    let c = ini(CONFIG);
    match plan(&c, &words(&["push"])) {
        Err(e) => {
            assert!(matches!(e, UsageError::Unsupported(_)));
            assert_eq!(e.message(), "error: push command is not supported");
        }
        Ok(_) => panic!("accepted"),
    }
}

#[test]
fn grep_needs_pattern() {
    let c = ini(CONFIG);
    let e = plan(&c, &words(&["grep"])).err().unwrap();
    assert_eq!(e.message(), "error: grep command requires more arguments");
}

#[test]
fn pr_needs_two_arguments() {
    let c = ini(CONFIG);
    let e = plan(&c, &words(&["pr", "fix"])).err().unwrap();
    assert_eq!(e.message(), "usage: git super pr <log_pattern> <pr_branch_name>");
}

#[test]
fn pr_needs_token() {
    let c = ini("[commands]\npr = yes\n");
    let e = plan(&c, &words(&["pr", "fix", "branch"])).err().unwrap();
    assert_eq!(e.message(), "error: github token is not set in .git-super");
}

#[test]
fn pr_without_org_uses_default_owner() {
    let c = ini("[commands]\npr = yes\n[github]\ntoken = t0k\n");
    let inv = plan(&c, &words(&["pr", "fix", "branch"])).ok().unwrap();
    assert!(matches!(inv.action, Action::Pr));
    assert_eq!(inv.org, "stackpath");
}

#[test]
fn org_not_needed_outside_pr() {
    let c = ini("[commands]\nfetch = yes\n");
    let inv = plan(&c, &words(&["fetch"])).ok().unwrap();
    assert_eq!(inv.org, "stackpath");
}

#[test]
fn checkout_usage_errors() {
    let c = ini(CONFIG);
    for bad in [&["checkout"][..], &["checkout", "-b"][..], &["checkout", "a", "b"][..]] {
        let e = plan(&c, &words(bad)).err().unwrap();
        assert_eq!(e.message(), "usage: git super checkout [-b <new_branch>] [<target>]");
    }
}

#[test]
fn checkout_with_alias() {
    let c = ini(CONFIG);
    let inv = plan(&c, &words(&["checkout", "-b", "feat", "lts"])).ok().unwrap();
    match inv.action {
        Action::Checkout { new_branch, alias_map, raw_target } => {
            assert_eq!(new_branch, Some("feat".to_string()));
            assert_eq!(raw_target, "lts");
            assert_eq!(alias_map.unwrap().get("alpha"), Some("release-1".to_string()));
        }
        _ => panic!("not a checkout"),
    }
}

#[test]
fn checkout_without_alias_section() {
    let c = ini(CONFIG);
    let inv = plan(&c, &words(&["checkout", "main"])).ok().unwrap();
    match inv.action {
        Action::Checkout { new_branch, alias_map, raw_target } => {
            assert_eq!(new_branch, None);
            assert!(alias_map.is_none());
            assert_eq!(raw_target, "main");
        }
        _ => panic!("not a checkout"),
    }
}

#[test]
fn actions_chosen_by_command() {
    let c = ini(CONFIG);
    assert!(matches!(plan(&c, &words(&["status"])).ok().unwrap().action, Action::Status));
    assert!(matches!(plan(&c, &words(&["grep", "x"])).ok().unwrap().action, Action::Grep));
    assert!(matches!(plan(&c, &words(&["pr", "x", "y"])).ok().unwrap().action, Action::Pr));
    assert!(matches!(plan(&c, &words(&["fetch", "--all"])).ok().unwrap().action, Action::Generic));
}

#[test]
fn projects_sorted_by_name() {
    let c = ini(CONFIG);
    let inv = plan(&c, &words(&["status"])).ok().unwrap();
    let names: Vec<&str> = inv.projects.iter().map(|p| p.name.as_str()).collect();
    assert_eq!(names, vec!["alpha", "mid", "zeta"]);
    assert_eq!(inv.projects[0].dir, "./a");
    assert_eq!(inv.token, "t0k");
    assert_eq!(inv.org, "acme");
}

#[test]
fn subprojects_sort_by_bytes() {
    let c = ini("[subprojects]\nb = 1\nB = 2\na = 3\né = 4\nab = 5\n");
    let names: Vec<String> = subprojects(&c).into_iter().map(|p| p.name).collect();
    assert_eq!(names, vec!["B", "a", "ab", "b", "é"]);
}

#[test]
fn token_defaults_to_empty() {
    assert_eq!(token_of(&ini("[commands]\n")), "");
}

#[test]
fn org_read_from_github_section() {
    assert_eq!(org_of(&ini("[github]\norg = my-github-org\n")), "my-github-org");
    assert_eq!(org_of(&ini("[commands]\n")), "");
}

#[test]
fn discover_word() {
    assert!(is_discover("discover"));
    assert!(!is_discover("status"));
}
