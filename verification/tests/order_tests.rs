use git_super::order::{bytes_le, sort_by_name};
use git_super::plan::Subproject;
use git_super::text::{find_byte, find_dots, is_blank, is_white_space, rfind_byte, split_str, starts_with, strip_prefix};

fn sp(name: &str, dir: &str) -> Subproject {
    Subproject { name: name.to_string(), dir: dir.to_string() }
}

#[test]
fn byte_order() {
    assert!(bytes_le(b"a", b"b"));
    assert!(bytes_le(b"", b""));
    assert!(bytes_le(b"ab", b"abc"));
    assert!(!bytes_le(b"abc", b"ab"));
    assert!(bytes_le(b"B", b"a"));
    assert!(!bytes_le(b"b", b"B"));
}

#[test]
fn sort_keeps_equal_names_in_order() {
    let sorted = sort_by_name(vec![sp("b", "1"), sp("a", "2"), sp("b", "3"), sp("a", "4"), sp("c", "5")]);
    let got: Vec<(String, String)> = sorted.into_iter().map(|p| (p.name, p.dir)).collect();
    let want: Vec<(String, String)> = [("a", "2"), ("a", "4"), ("b", "1"), ("b", "3"), ("c", "5")]
        .iter()
        .map(|(n, d)| (n.to_string(), d.to_string()))
        .collect();
    assert_eq!(got, want);
}

#[test]
fn sort_of_nothing() {
    assert!(sort_by_name(Vec::<Subproject>::new()).is_empty());
}

#[test]
fn splitting_keeps_empty_pieces() {
    assert_eq!(split_str("a\n\nb\n", b'\n'), vec!["a", "", "b", ""]);
    assert_eq!(split_str("", b'\n'), vec![""]);
    assert_eq!(split_str("x,é,", b','), vec!["x", "é", ""]);
}

#[test]
fn searches() {
    assert_eq!(find_byte(b"a(b(c", b'(', 0), Some(1));
    assert_eq!(find_byte(b"a(b(c", b'(', 2), Some(3));
    assert_eq!(find_byte(b"abc", b'(', 0), None);
    assert_eq!(find_byte(b"abc", b'a', 9), None);
    assert_eq!(rfind_byte(b"[a[b", b'['), Some(2));
    assert_eq!(rfind_byte(b"ab", b'['), None);
    assert_eq!(find_dots(b"a..b...c...."), Some(4));
    assert_eq!(find_dots(b".."), None);
}

#[test]
fn prefixes() {
    assert!(starts_with(b"tag: v1", b"tag: "));
    assert!(!starts_with(b"ta", b"tag"));
    assert_eq!(strip_prefix("origin/x", "origin/"), Some("x"));
    assert_eq!(strip_prefix("x", "origin/"), None);
}

#[test]
fn white_space() {
    assert!(is_blank(""));
    assert!(is_blank(" \t\n\r\u{a0}\u{3000}"));
    assert!(!is_blank(" x "));
    assert!(is_white_space('\u{85}'));
    assert!(!is_white_space('\u{200b}'));
}
