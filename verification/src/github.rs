//! The reply of GitHub to a new pull request: the URL of the pull request,
//! read from the JSON body.

use vstd::prelude::*;

verus! {

/// What `serde_json` reads from `text` for the field `key`: `Err` with the
/// parser's message where `text` is not a JSON document, `Ok(Some(s))` where
/// the document is an object whose field `key` is the string `s`, and
/// `Ok(None)` otherwise.
pub uninterp spec fn json_string_field(text: Seq<char>, key: Seq<char>) -> Result<Option<Seq<char>>, Seq<char>>;

/// A read field as plain values.
pub open spec fn field_view(r: Result<Option<String>, String>) -> Result<Option<Seq<char>>, Seq<char>> {
    match r {
        Ok(Some(s)) => Ok(Some(s@)),
        Ok(None) => Ok(None),
        Err(e) => Err(e@),
    }
}

/// A text or a failure as plain values.
pub open spec fn outcome_view(r: Result<String, String>) -> Result<Seq<char>, Seq<char>> {
    match r {
        Ok(s) => Ok(s@),
        Err(e) => Err(e@),
    }
}

/// `serde_json::from_str` into a `serde_json::Value`, then the field `key`
/// (by `Value`'s index by `&str`, which gives `Null` for a missing field or
/// a document that is not an object) taken with `Value::as_str`; a parse
/// failure gives the parser's message. What it reads is left to the name
/// `json_string_field`.
#[verifier::external_body]
fn read_json_string_field(text: &str, key: &str) -> (r: Result<Option<String>, String>)
    ensures
        field_view(r) == json_string_field(text@, key@),
{
    match serde_json::from_str::<serde_json::Value>(text) {
        Ok(v) => Ok(v[key].as_str().map(|s| s.to_string())),
        Err(e) => Err(e.to_string()),
    }
}

/// The URL of a created pull request, from the `html_url` field read out of
/// the reply: the field's text, empty where the reply has no such string,
/// and a failure `Failed to read JSON: <message>` where the reply is not
/// JSON.
pub open spec fn url_from_field(field: Result<Option<Seq<char>>, Seq<char>>) -> Result<Seq<char>, Seq<char>> {
    match field {
        Ok(Some(url)) => Ok(url),
        Ok(None) => Ok(Seq::empty()),
        Err(e) => Err("Failed to read JSON: "@ + e),
    }
}

/// The URL of a created pull request, from the `html_url` field read out of
/// the reply (see `url_from_field`).
pub fn pr_url_from_field(field: Result<Option<String>, String>) -> (r: Result<String, String>)
    ensures
        outcome_view(r) == url_from_field(field_view(field)),
{
    match field {
        Ok(Some(url)) => Ok(url),
        Ok(None) => Ok(String::new()),
        Err(e) => {
            let mut m = "Failed to read JSON: ".to_owned();
            m.append(e.as_str());
            Err(m)
        },
    }
}

/// The URL of the pull request that the reply body `text` describes.
pub open spec fn created_pr_url(text: Seq<char>) -> Result<Seq<char>, Seq<char>> {
    url_from_field(json_string_field(text, "html_url"@))
}

/// The URL of the pull request that the reply body `text` describes: its
/// `html_url` string, empty where it has none, or a failure where the body
/// is not JSON.
pub fn pr_url_of_reply(text: &str) -> (r: Result<String, String>)
    ensures
        outcome_view(r) == created_pr_url(text@),
{
    let field = read_json_string_field(text, "html_url");
    pr_url_from_field(field)
}

} // verus!
