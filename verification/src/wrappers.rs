//! The trusted boundary of the library: every call into an outside crate, or
//! into a std function that vstd gives no specification, goes through exactly
//! one function here. Each carries the contract that the called code's source
//! or documentation supports, and nothing more.

use vstd::prelude::*;

verus! {

use pulldown_cmark::Event;
use pulldown_cmark::Options;
use pulldown_cmark::Parser;
use pulldown_cmark::Tag;
use pulldown_cmark::html::push_html;
use crate::url::relative_url_parts;

/// The uppercase mapping of a string; it depends on the characters alone.
pub uninterp spec fn upper_of(s: Seq<char>) -> Seq<char>;

/// The lowercase mapping of a string; it depends on the characters alone.
pub uninterp spec fn lower_of(s: Seq<char>) -> Seq<char>;

/// The HTML that the markdown converter produces for a text, after link and
/// image targets are rewritten against a base URL; it depends on the text and
/// the base URL alone.
pub uninterp spec fn markdown_html_of(md: Seq<char>, base: Seq<char>) -> Seq<char>;

/// The string entries of a YAML document read as a string-to-string map, in
/// key order; they depend on the document alone.
pub uninterp spec fn yaml_string_entries_of(s: Seq<char>) -> Seq<(Seq<char>, Seq<char>)>;

/// Whether a document reads as a string-to-string map at all; like the
/// entries themselves, this depends on the document alone.
pub uninterp spec fn yaml_string_map_ok(s: Seq<char>) -> bool;

/// The scalar entries of a YAML document whose top level is a mapping, in
/// document order; a non-string key is handed back absent, and so is any
/// value that is not a string or a boolean. They depend on the document
/// alone.
pub uninterp spec fn yaml_scalar_entries_of(s: Seq<char>) -> Seq<
    (Option<Seq<char>>, Option<Seq<char>>),
>;

/// Whether a document's top level reads as a mapping at all; this too
/// depends on the document alone.
pub uninterp spec fn yaml_scalar_map_ok(s: Seq<char>) -> bool;

/// Relies on str::to_uppercase: the result is a function of the characters.
/// An empty string stays empty.
#[verifier::external_body]
pub fn to_upper(s: &str) -> (r: String)
    ensures
        r@ == upper_of(s@),
        s@.len() == 0 ==> r@.len() == 0,
{
    s.to_uppercase()
}

/// Relies on str::to_lowercase: the result is a function of the characters.
/// An empty string stays empty.
#[verifier::external_body]
pub fn to_lower(s: &str) -> (r: String)
    ensures
        r@ == lower_of(s@),
        s@.len() == 0 ==> r@.len() == 0,
{
    s.to_lowercase()
}

/// Relies on chrono's Local::now, formatted `%Y-%m-%d`. The value depends on
/// the clock, so nothing is assumed of it.
#[verifier::external_body]
pub fn local_date_now() -> String {
    chrono::Local::now().format("%Y-%m-%d").to_string()
}

/// Relies on chrono's Local::now, formatted `%Y-%m-%d %H:%M:%S`. The value
/// depends on the clock, so nothing is assumed of it.
#[verifier::external_body]
pub fn local_datetime_now() -> String {
    chrono::Local::now().format("%Y-%m-%d %H:%M:%S").to_string()
}

/// Relies on chrono's Local::now, formatted `%c`. The value depends on the
/// clock, so nothing is assumed of it.
#[verifier::external_body]
pub fn local_datetime_pretty_now() -> String {
    chrono::Local::now().format("%c").to_string()
}

/// Relies on serde_yaml::from_str reading a string-to-string map; a BTreeMap
/// keeps the entries in key order, so the answer depends on the document
/// alone. A document that is not such a map comes back as the error's text.
#[verifier::external_body]
pub fn parse_yaml_string_map(s: &str) -> (r: Result<Vec<(String, String)>, String>)
    ensures
        r is Ok <==> yaml_string_map_ok(s@),
        r matches Ok(v) ==> v.deep_view() == yaml_string_entries_of(s@),
{
    serde_yaml::from_str::<std::collections::BTreeMap<String, String>>(s).map(|m|
        m.into_iter().collect(),
    ).map_err(|e| e.to_string())
}

/// Relies on serde_yaml::from_str reading a document whose top level is a
/// mapping; serde_yaml's Mapping keeps document order. Each entry is handed
/// back with its key if the key is a string, and its value if the value is a
/// string or a boolean (a boolean as `true`/`false`).
#[verifier::external_body]
pub fn parse_yaml_scalar_map(s: &str) -> (r: Option<Vec<(Option<String>, Option<String>)>>)
    ensures
        r is Some <==> yaml_scalar_map_ok(s@),
        r matches Some(v) ==> v.deep_view() == yaml_scalar_entries_of(s@),
{
    match serde_yaml::from_str::<serde_yaml::Value>(s) {
        Ok(serde_yaml::Value::Mapping(m)) => Some(m.into_iter().map(|(k, v)| (
            match k { serde_yaml::Value::String(x) => Some(x), _ => None },
            match v {
                serde_yaml::Value::String(x) => Some(x),
                serde_yaml::Value::Bool(b) => Some(b.to_string()),
                _ => None,
            },
        )).collect()),
        _ => None,
    }
}

/// Relies on pulldown_cmark's Parser and push_html: the HTML is a function of
/// the markdown text and of the link and image targets, which are rewritten
/// through the library's own URL rule against `base`.
#[verifier::external_body]
pub fn markdown_to_html(md: &str, base: &str) -> (r: String)
    ensures
        r@ == markdown_html_of(md@, base@),
{
    let rw = |u: pulldown_cmark::CowStr<'_>| pulldown_cmark::CowStr::from(relative_url_parts(base, u.as_ref()));
    let parser = Parser::new_ext(md, Options::all()).map(|ev| match ev {
        Event::Start(Tag::Link { link_type, dest_url, title, id }) =>
            Event::Start(Tag::Link { link_type, dest_url: rw(dest_url), title, id }),
        Event::Start(Tag::Image { link_type, dest_url, title, id }) =>
            Event::Start(Tag::Image { link_type, dest_url: rw(dest_url), title, id }),
        other => other,
    });
    let mut out = String::new();
    push_html(&mut out, parser);
    out
}


/// Relies on chrono's Utc::now and to_rfc3339. The value depends on the
/// clock, so nothing is assumed of it.
#[verifier::external_body]
pub fn utc_now_rfc3339() -> String {
    chrono::Utc::now().to_rfc3339()
}

} // verus!

