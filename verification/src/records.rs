//! The JSON records the crawler leaves on disk or prints, as `serde_json`
//! reads them: a site's `index.json`, the metadata of a document, and the
//! summary a pre-crawl prints.
use vstd::prelude::*;

verus! {

pub open spec fn opt_view(o: Option<String>) -> Option<Seq<char>> {
    match o {
        Some(s) => Some(s@),
        None => None,
    }
}

pub open spec fn pair_views(v: Seq<(String, String)>) -> Seq<(Seq<char>, Seq<char>)> {
    v.map_values(|p: (String, String)| (p.0@, p.1@))
}

pub open spec fn opt_pair_views(o: Option<Vec<(String, String)>>) -> Option<
    Seq<(Seq<char>, Seq<char>)>,
> {
    match o {
        Some(v) => Some(pair_views(v@)),
        None => None,
    }
}

pub open spec fn opt_views(v: Seq<Option<String>>) -> Seq<Option<Seq<char>>> {
    v.map_values(|o: Option<String>| opt_view(o))
}

pub open spec fn opt_item_views(o: Option<Vec<Option<String>>>) -> Option<Seq<Option<Seq<char>>>> {
    match o {
        Some(v) => Some(opt_views(v@)),
        None => None,
    }
}

/// What `serde_json` reads from the text of an `index.json` as a
/// `serde_json::Value`: `None` when the text is not JSON; otherwise the
/// entries of its `file_tree` member when that is an object (each name with
/// its value written back as compact JSON text, in the object's order), and
/// its `last_updated` member when that is a string.
pub uninterp spec fn index_json(text: Seq<char>) -> Option<
    (Option<Seq<(Seq<char>, Seq<char>)>>, Option<Seq<char>>),
>;

/// Calls `serde_json::from_str` for a `serde_json::Value` on the text of an
/// `index.json`, then reads its `file_tree` member with `as_object` (each
/// value written back with `to_string`) and its `last_updated` member with
/// `as_str`. The contract claims only that the result is `index_json` of the
/// text.
#[verifier::external_body]
pub(crate) fn parse_index_json(text: &str) -> (r: Option<(Option<Vec<(String, String)>>, Option<String>)>)
    ensures
        r is None <==> index_json(text@) is None,
        r matches Some((t, l)) ==> index_json(text@) == Some((opt_pair_views(t), opt_view(l))),
{
    match serde_json::from_str::<serde_json::Value>(text) {
        Ok(v) => Some((
            v["file_tree"].as_object().map(|m| m.iter().map(|(k, x)| (k.clone(), x.to_string())).collect()),
            v["last_updated"].as_str().map(String::from),
        )),
        Err(_) => None,
    }
}

/// What `serde_json` gives for a text read as a `serde_json::Value` and
/// written back as compact JSON text; `None` when the text is not JSON.
pub uninterp spec fn json_value_text(text: Seq<char>) -> Option<Seq<char>>;

/// Calls `serde_json::from_str` for a `serde_json::Value` on a text and, when
/// that succeeds, writes the value back with `to_string`. The contract claims
/// only that the result is `json_value_text` of the text.
#[verifier::external_body]
pub(crate) fn parse_json_value(text: &str) -> (r: Option<String>)
    ensures
        opt_view(r) == json_value_text(text@),
{
    match serde_json::from_str::<serde_json::Value>(text) {
        Ok(v) => Some(v.to_string()),
        Err(_) => None,
    }
}

/// The string that the JSON text `text` holds under `key`, as `serde_json`
/// reads it; `None` when the text is not JSON, or holds no string there.
pub uninterp spec fn json_str_field(text: Seq<char>, key: Seq<char>) -> Option<Seq<char>>;

/// Calls `serde_json::from_str` for a `serde_json::Value` on a text, then
/// `as_str` on its member `key`. The contract claims only that the result is
/// `json_str_field` of the text and the key.
#[verifier::external_body]
pub(crate) fn str_field(text: &str, key: &str) -> (r: Option<String>)
    ensures
        opt_view(r) == json_str_field(text@, key@),
{
    match serde_json::from_str::<serde_json::Value>(text) {
        Ok(v) => v[key].as_str().map(String::from),
        Err(_) => None,
    }
}

/// What `serde_json` reads from the record a pre-crawl prints, as a
/// `serde_json::Value`: its `total` and `max_depth` members as `as_u64`
/// reads them, and, when its `urls` member is an array, each item as `as_str`
/// reads it; or the text of the parser's error when the record is not JSON.
pub uninterp spec fn pre_crawl_json(text: Seq<char>) -> Result<
    (Option<u64>, Option<u64>, Option<Seq<Option<Seq<char>>>>),
    Seq<char>,
>;

pub open spec fn pre_crawl_view(
    r: Result<(Option<u64>, Option<u64>, Option<Vec<Option<String>>>), String>,
) -> Result<(Option<u64>, Option<u64>, Option<Seq<Option<Seq<char>>>>), Seq<char>> {
    match r {
        Ok((t, d, u)) => Ok((t, d, opt_item_views(u))),
        Err(e) => Err(e@),
    }
}

/// Calls `serde_json::from_str` for a `serde_json::Value` on a pre-crawl
/// record, then `as_u64` on its `total` and `max_depth` members and `as_str`
/// on each item of its `urls` array; on failure, the error's `to_string`. The
/// contract claims only that the result is `pre_crawl_json` of the text.
#[verifier::external_body]
pub(crate) fn parse_pre_crawl_json(text: &str) -> (r: Result<
    (Option<u64>, Option<u64>, Option<Vec<Option<String>>>),
    String,
>)
    ensures
        pre_crawl_view(r) == pre_crawl_json(text@),
{
    match serde_json::from_str::<serde_json::Value>(text) {
        Ok(v) => Ok((
            v["total"].as_u64(),
            v["max_depth"].as_u64(),
            v["urls"].as_array().map(|a| a.iter().map(|x| x.as_str().map(String::from)).collect()),
        )),
        Err(e) => Err(e.to_string()),
    }
}

} // verus!
