use git_super::github::{pr_url_from_field, pr_url_of_reply};

#[test]
fn reply_url_is_read_from_html_url() {
    let body = r#"{"url": "https://api.github.com/x", "html_url": "https://github.com/o/r/pull/3"}"#;
    assert_eq!(pr_url_of_reply(body), Ok("https://github.com/o/r/pull/3".to_string()));
}

#[test]
fn reply_url_missing_or_not_a_string_is_empty() {
    assert_eq!(pr_url_of_reply(r#"{"id": 1}"#), Ok(String::new()));
    assert_eq!(pr_url_of_reply(r#"{"html_url": 5}"#), Ok(String::new()));
    assert_eq!(pr_url_of_reply("[1, 2]"), Ok(String::new()));
}

#[test]
fn reply_that_is_not_json_fails() {
    let e = pr_url_of_reply("not json").err().unwrap();
    assert!(e.starts_with("Failed to read JSON: "));
    assert!(e.len() > "Failed to read JSON: ".len());
}

#[test]
fn url_from_field_cases() {
    assert_eq!(pr_url_from_field(Ok(Some("u".to_string()))), Ok("u".to_string()));
    assert_eq!(pr_url_from_field(Ok(None)), Ok(String::new()));
    assert_eq!(pr_url_from_field(Err("bad".to_string())), Err("Failed to read JSON: bad".to_string()));
}
