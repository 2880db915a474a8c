use git_super::config::{discover, entries_of, resolve_alias, trim_leading_slashes, value_of, AliasMap};
use ini::Ini;

fn ini(text: &str) -> Ini {
    Ini::load_from_str(text).unwrap()
}

#[test]
fn alias_resolves_per_repository() {
    let c = ini("[branch_alias.lts-1.5]\nrepo-a = release-1.5\nrepo-b = release/1.5.x\n");
    let m = resolve_alias(&c, "lts-1.5").unwrap();
    assert_eq!(m.get("repo-a"), Some("release-1.5".to_string()));
    assert_eq!(m.get("repo-b"), Some("release/1.5.x".to_string()));
    assert_eq!(m.get("repo-c"), None);
}

#[test]
fn missing_alias_section() {
    let c = ini("[subprojects]\na = ./a\n");
    assert!(resolve_alias(&c, "lts").is_none());
}

#[test]
fn later_alias_entry_wins() {
    let m = AliasMap {
        entries: vec![("r".to_string(), "one".to_string()), ("r".to_string(), "two".to_string())],
    };
    assert_eq!(m.get("r"), Some("two".to_string()));
}

#[test]
fn value_lookup() {
    let c = ini("[github]\ntoken = abc\norg = me\n");
    assert_eq!(value_of(&c, "github", "token"), Some("abc".to_string()));
    assert_eq!(value_of(&c, "github", "missing"), None);
    assert_eq!(value_of(&c, "nothing", "token"), None);
}

#[test]
fn entries_in_order() {
    let c = ini("[subprojects]\nb = ./b\na = ./x/a\n");
    assert_eq!(
        entries_of(&c, "subprojects"),
        vec![("b".to_string(), "./b".to_string()), ("a".to_string(), "./x/a".to_string())]
    );
    assert!(entries_of(&c, "commands").is_empty());
}

#[test]
fn slashes_trimmed() {
    assert_eq!(trim_leading_slashes("//a/b"), "a/b");
    assert_eq!(trim_leading_slashes("a"), "a");
    assert_eq!(trim_leading_slashes("///"), "");
}

#[test]
fn discover_adds_new_repositories() {
    let mut c = ini("[subprojects]\nold = ./somewhere\n[commands]\nstatus = yes\n");
    let paths = vec!["/new".to_string(), "old".to_string(), "".to_string(), "x/y".to_string()];
    assert!(discover(&mut c, &paths));
    assert_eq!(
        entries_of(&c, "subprojects"),
        vec![
            ("old".to_string(), "./somewhere".to_string()),
            ("new".to_string(), "./new".to_string()),
            ("x/y".to_string(), "./x/y".to_string()),
        ]
    );
    assert_eq!(entries_of(&c, "commands"), vec![("status".to_string(), "yes".to_string())]);
}

#[test]
fn discover_creates_the_section() {
    let mut c = ini("[commands]\nstatus = yes\n");
    discover(&mut c, &vec!["a".to_string()]);
    assert_eq!(entries_of(&c, "subprojects"), vec![("a".to_string(), "./a".to_string())]);
}

#[test]
fn discover_twice_is_discover_once() {
    let mut c = ini("[subprojects]\n");
    let paths = vec!["a".to_string(), "b/c".to_string()];
    discover(&mut c, &paths);
    let once = entries_of(&c, "subprojects");
    discover(&mut c, &paths);
    assert_eq!(entries_of(&c, "subprojects"), once);
}
