//! Pattern matching and parsing that the library leaves to outside crates:
//! regular expressions (`regex`) and JSON validity (`serde_json`).
use crate::model::texts;
use vstd::prelude::*;

verus! {

/// The text of the first capture group of every match of `pattern` in
/// `text`, in order, as the `regex` crate finds them (an empty text where
/// the group took no part).
pub uninterp spec fn regex_groups(pattern: Seq<char>, text: Seq<char>) -> Seq<Seq<char>>;

/// The text of the first capture group of the first match of `pattern` in
/// `text`, as the `regex` crate finds it.
pub uninterp spec fn regex_group(pattern: Seq<char>, text: Seq<char>) -> Option<Seq<char>>;

/// The texts of the first two capture groups of the first match of
/// `pattern` in `text`, as the `regex` crate finds them.
pub uninterp spec fn regex_pair(pattern: Seq<char>, text: Seq<char>) -> Option<(Seq<char>, Seq<char>)>;

/// The texts of the first three capture groups of the first match of
/// `pattern` in `text`, as the `regex` crate finds them.
pub uninterp spec fn regex_triple(pattern: Seq<char>, text: Seq<char>) -> Option<(Seq<char>, Seq<char>, Seq<char>)>;

/// Calls `regex::Regex::new` and `Regex::captures`; the first three groups
/// are named by `regex_triple`. Nothing more is claimed of them.
#[verifier::external_body]
pub(crate) fn capture_triple(pattern: &str, text: &str) -> (r: Option<(String, String, String)>)
    ensures
        match r {
            Some((a, b, c)) => regex_triple(pattern@, text@) == Some((a@, b@, c@)),
            None => regex_triple(pattern@, text@) is None,
        },
{
    match regex::Regex::new(pattern) {
        Ok(expression) => expression.captures(text).map(
            |found| {
                (
                    found.get(1).map_or_else(String::new, |group| group.as_str().to_owned()),
                    found.get(2).map_or_else(String::new, |group| group.as_str().to_owned()),
                    found.get(3).map_or_else(String::new, |group| group.as_str().to_owned()),
                )
            },
        ),
        Err(_) => None,
    }
}

/// Whether `serde_json` parses a text as a JSON value.
pub uninterp spec fn json_parses(text: Seq<char>) -> bool;

/// Calls `regex::Regex::new` and `Regex::captures_iter`; the result is
/// named by `regex_groups`. Nothing more is claimed of it.
#[verifier::external_body]
pub(crate) fn capture_all(pattern: &str, text: &str) -> (r: Vec<String>)
    ensures
        texts(r@) == regex_groups(pattern@, text@),
{
    match regex::Regex::new(pattern) {
        Ok(expression) => expression.captures_iter(text).map(
            |found| found.get(1).map_or_else(String::new, |group| group.as_str().to_owned()),
        ).collect(),
        Err(_) => Vec::new(),
    }
}

/// Calls `regex::Regex::new` and `Regex::captures`; the result is named by
/// `regex_group`. Nothing more is claimed of it.
#[verifier::external_body]
pub(crate) fn capture_first(pattern: &str, text: &str) -> (r: Option<String>)
    ensures
        match r {
            Some(g) => regex_group(pattern@, text@) == Some(g@),
            None => regex_group(pattern@, text@) is None,
        },
{
    match regex::Regex::new(pattern) {
        Ok(expression) => expression.captures(text).map(
            |found| found.get(1).map_or_else(String::new, |group| group.as_str().to_owned()),
        ),
        Err(_) => None,
    }
}

/// Calls `regex::Regex::new` and `Regex::captures`; the first two groups
/// are named by `regex_pair`. Nothing more is claimed of them.
#[verifier::external_body]
pub(crate) fn capture_pair(pattern: &str, text: &str) -> (r: Option<(String, String)>)
    ensures
        match r {
            Some((a, b)) => regex_pair(pattern@, text@) == Some((a@, b@)),
            None => regex_pair(pattern@, text@) is None,
        },
{
    match regex::Regex::new(pattern) {
        Ok(expression) => expression.captures(text).map(
            |found| {
                (
                    found.get(1).map_or_else(String::new, |group| group.as_str().to_owned()),
                    found.get(2).map_or_else(String::new, |group| group.as_str().to_owned()),
                )
            },
        ),
        Err(_) => None,
    }
}

/// Calls `serde_json::from_str::<serde_json::Value>` and reports whether it
/// succeeded; the answer is named by `json_parses`.
#[verifier::external_body]
pub(crate) fn is_json(text: &str) -> (r: bool)
    ensures
        r == json_parses(text@),
{
    serde_json::from_str::<serde_json::Value>(text).is_ok()
}


/// The keys of the object under `field` of a JSON text, as `serde_json`
/// reads it: none when the text is not JSON, the field is missing or not
/// an object.
pub uninterp spec fn json_field_keys(text: Seq<char>, field: Seq<char>) -> Option<Seq<Seq<char>>>;

/// Whether a JSON text is an object with the field.
pub uninterp spec fn json_has_field(text: Seq<char>, field: Seq<char>) -> bool;

/// The keys of a JSON text that is an object.
pub uninterp spec fn json_root_keys(text: Seq<char>) -> Option<Seq<Seq<char>>>;

/// The `name` strings of the elements of a JSON text that is an array.
pub uninterp spec fn json_array_names(text: Seq<char>) -> Option<Seq<Option<Seq<char>>>>;

/// Calls `serde_json::from_str::<serde_json::Value>`, `Value::get` and
/// `Value::as_object`; the keys are named by `json_field_keys`.
#[verifier::external_body]
pub(crate) fn field_keys(text: &str, field: &str) -> (r: Option<Vec<String>>)
    ensures
        match r {
            Some(k) => json_field_keys(text@, field@) == Some(texts(k@)),
            None => json_field_keys(text@, field@) is None,
        },
{
    let value: serde_json::Value = serde_json::from_str(text).ok()?;
    Some(value.get(field)?.as_object()?.keys().cloned().collect())
}

/// Calls `serde_json::from_str::<serde_json::Value>` and `Value::get`;
/// the answer is named by `json_has_field`.
#[verifier::external_body]
pub(crate) fn has_field(text: &str, field: &str) -> (r: bool)
    ensures
        r == json_has_field(text@, field@),
{
    serde_json::from_str::<serde_json::Value>(text).ok().is_some_and(|v| v.get(field).is_some())
}

/// Calls `serde_json::from_str::<serde_json::Value>` and
/// `Value::as_object`; the keys are named by `json_root_keys`.
#[verifier::external_body]
pub(crate) fn root_keys(text: &str) -> (r: Option<Vec<String>>)
    ensures
        match r {
            Some(k) => json_root_keys(text@) == Some(texts(k@)),
            None => json_root_keys(text@) is None,
        },
{
    let value: serde_json::Value = serde_json::from_str(text).ok()?;
    Some(value.as_object()?.keys().cloned().collect())
}

/// Calls `serde_json::from_str::<serde_json::Value>`, `Value::as_array`,
/// `Value::get("name")` and `Value::as_str` on each element; the names are
/// named by `json_array_names`.
#[verifier::external_body]
pub(crate) fn array_names(text: &str) -> (r: Option<Vec<Option<String>>>)
    ensures
        match r {
            Some(n) => json_array_names(text@) == Some(
                n@.map_values(|o: Option<String>| crate::provenance::opt_texts_of(o)),
            ),
            None => json_array_names(text@) is None,
        },
{
    let value: serde_json::Value = serde_json::from_str(text).ok()?;
    Some(value.as_array()?.iter().map(|e| e.get("name").and_then(serde_json::Value::as_str).map(str::to_owned)).collect())
}


/// The texts of the first two capture groups of every match of `pattern`
/// in `text`, in order, as the `regex` crate finds them (an empty text
/// where a group took no part).
pub uninterp spec fn regex_pairs(pattern: Seq<char>, text: Seq<char>) -> Seq<(Seq<char>, Seq<char>)>;

/// Whether `pattern` matches somewhere in `text`, as the `regex` crate
/// decides.
pub uninterp spec fn regex_matches(pattern: Seq<char>, text: Seq<char>) -> bool;

/// The characters that have a meaning in a regular expression, as
/// `regex_syntax::is_meta_character` lists them.
pub open spec fn regex_meta(c: char) -> bool {
    c == '\\' || c == '.' || c == '+' || c == '*' || c == '?' || c == '(' || c == ')' || c == '|'
        || c == '[' || c == ']' || c == '{' || c == '}' || c == '^' || c == '$' || c == '#' || c
        == '&' || c == '-' || c == '~'
}

/// The text that `regex::escape` makes of a literal: a backslash before
/// each meta character, every character kept in order.
pub open spec fn regex_escaped(text: Seq<char>) -> Seq<char>
    decreases text.len(),
{
    if text.len() == 0 {
        Seq::empty()
    } else {
        regex_escaped(text.drop_last()) + if regex_meta(text.last()) {
            seq!['\\', text.last()]
        } else {
            seq![text.last()]
        }
    }
}

/// Calls `regex::Regex::new` and `Regex::captures_iter`, taking the first
/// two groups of each match; the result is named by `regex_pairs`.
#[verifier::external_body]
pub(crate) fn capture_pairs(pattern: &str, text: &str) -> (r: Vec<(String, String)>)
    ensures
        r@.map_values(|p: (String, String)| (p.0@, p.1@)) == regex_pairs(pattern@, text@),
{
    let Ok(expression) = regex::Regex::new(pattern) else { return Vec::new() };
    let group = |c: &regex::Captures, i: usize| c.get(i).map_or("", |g| g.as_str()).to_owned();
    expression.captures_iter(text).map(|c| (group(&c, 1), group(&c, 2))).collect()
}

/// Calls `regex::Regex::new` and `Regex::is_match`; the answer is named by
/// `regex_matches`.
#[verifier::external_body]
pub(crate) fn is_match(pattern: &str, text: &str) -> (r: bool)
    ensures
        r == regex_matches(pattern@, text@),
{
    regex::Regex::new(pattern).is_ok_and(|expression| expression.is_match(text))
}

/// Calls `regex::escape`, which puts a backslash before each meta
/// character (`regex_escaped`).
#[verifier::external_body]
pub(crate) fn escape(text: &str) -> (r: String)
    ensures
        r@ == regex_escaped(text@),
{
    regex::escape(text)
}

} // verus!
