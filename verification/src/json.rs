//! JSON texts, read and written by `serde_json`. A part of a document stands here as
//! the compact text of that part.
use crate::lists::{take_all, take_next};
use crate::textmap::TextMap;
use vstd::prelude::*;

verus! {

/// The member `key` of the object that `json` writes, as compact text. None where
/// `json` is no JSON, is no object, or has no such member.
pub uninterp spec fn json_member(json: Seq<char>, key: Seq<char>) -> Option<Seq<char>>;

/// The string that `json` writes, where it writes one.
pub uninterp spec fn json_text(json: Seq<char>) -> Option<Seq<char>>;

/// The number that `json` writes, where it writes one without sign, fraction and
/// exponent that fits.
pub uninterp spec fn json_count(json: Seq<char>) -> Option<u64>;

/// The members of the object that `json` writes, each as name and compact text, in the
/// order in which `serde_json` keeps them.
pub uninterp spec fn json_members(json: Seq<char>) -> Option<Seq<(Seq<char>, Seq<char>)>>;

/// The items of the array that `json` writes, each as compact text.
pub uninterp spec fn json_items(json: Seq<char>) -> Option<Seq<Seq<char>>>;

/// The strings of the array that `json` writes, where it writes an array of strings.
pub uninterp spec fn json_strings(json: Seq<char>) -> Option<Seq<Seq<char>>>;

/// The entries of the object that `json` writes, in key order, where each value is a
/// string.
pub uninterp spec fn json_text_entries(json: Seq<char>) -> Option<Seq<(Seq<char>, Seq<char>)>>;

/// The entries of the object that `json` writes, in key order, where each value is a list
/// of strings.
pub uninterp spec fn json_list_entries(json: Seq<char>) -> Option<
    Seq<(Seq<char>, Seq<Seq<char>>)>,
>;

/// The JSON array of the strings `v`.
pub uninterp spec fn json_listed(v: Seq<Seq<char>>) -> Seq<char>;

/// The JSON string that stands for `s`.
pub uninterp spec fn json_quoted(s: Seq<char>) -> Seq<char>;

/// `serde_json::from_str` into a `Value`, then `Value::get`: a member of an object,
/// written back as compact text. What it gives depends on the two texts alone.
#[verifier::external_body]
pub(crate) fn member(json: &str, key: &str) -> (r: Option<String>)
    ensures
        r.deep_view() == json_member(json@, key@),
{
    let v: serde_json::Value = serde_json::from_str(json).ok()?;
    v.get(key).map(|m| m.to_string())
}

/// `serde_json::Value::as_str` of a document: its string, where it is one. What it
/// gives depends on the text alone.
#[verifier::external_body]
pub(crate) fn text(json: &str) -> (r: Option<String>)
    ensures
        r.deep_view() == json_text(json@),
{
    let v: serde_json::Value = serde_json::from_str(json).ok()?;
    v.as_str().map(|s| s.to_string())
}

/// `serde_json::Value::as_u64` of a document: its number, where it is one that fits.
/// What it gives depends on the text alone.
#[verifier::external_body]
pub(crate) fn count(json: &str) -> (r: Option<u64>)
    ensures
        r == json_count(json@),
{
    let v: serde_json::Value = serde_json::from_str(json).ok()?;
    v.as_u64()
}

/// `serde_json::Value::as_object` of a document: its members, each written back as
/// compact text. What it gives depends on the text alone.
#[verifier::external_body]
pub(crate) fn members(json: &str) -> (r: Option<Vec<(String, String)>>)
    ensures
        r.deep_view() == json_members(json@),
{
    let v: serde_json::Value = serde_json::from_str(json).ok()?;
    v.as_object().map(|o| o.iter().map(|(k, m)| (k.clone(), m.to_string())).collect())
}

/// `serde_json::Value::as_array` of a document: its items, each written back as compact
/// text. What it gives depends on the text alone.
#[verifier::external_body]
pub(crate) fn items(json: &str) -> (r: Option<Vec<String>>)
    ensures
        r.deep_view() == json_items(json@),
{
    let v: serde_json::Value = serde_json::from_str(json).ok()?;
    v.as_array().map(|a| a.iter().map(|m| m.to_string()).collect())
}

/// `serde_json::from_str` into a list of strings. What it gives depends on the text
/// alone.
#[verifier::external_body]
pub(crate) fn strings(json: &str) -> (r: Option<Vec<String>>)
    ensures
        r.deep_view() == json_strings(json@),
{
    serde_json::from_str::<Vec<String>>(json).ok()
}

/// `serde_json::from_str` into a map from strings to strings. What it gives depends on
/// the text alone.
#[verifier::external_body]
fn text_entries(json: &str) -> (r: Option<Vec<(String, String)>>)
    ensures
        r.deep_view() == json_text_entries(json@),
{
    let m: std::collections::BTreeMap<String, String> = serde_json::from_str(json).ok()?;
    Some(m.into_iter().collect())
}

/// `serde_json::from_str` into a map from strings to lists of strings. What it gives
/// depends on the text alone.
#[verifier::external_body]
fn list_entries(json: &str) -> (r: Option<Vec<(String, Vec<String>)>>)
    ensures
        r.deep_view() == json_list_entries(json@),
{
    let m: std::collections::BTreeMap<String, Vec<String>> = serde_json::from_str(json).ok()?;
    Some(m.into_iter().collect())
}

/// `serde_json::Value::to_string` of an array of strings: the JSON array, from which
/// `serde_json` reads the strings back.
#[verifier::external_body]
pub(crate) fn listed(v: &Vec<String>) -> (r: String)
    ensures
        r@ == json_listed(v.deep_view()),
        json_strings(r@) == Some(v.deep_view()),
{
    serde_json::Value::from(v.clone()).to_string()
}

/// `serde_json::Value::to_string` of a string value: the JSON string that stands for
/// `s`, from which `serde_json` reads `s` back.
#[verifier::external_body]
pub(crate) fn quote(s: &str) -> (r: String)
    ensures
        r@ == json_quoted(s@),
        json_text(r@) == Some(s@),
{
    serde_json::Value::from(s).to_string()
}

/// The entries as a map; of two with one key the later counts.
pub open spec fn entry_map<V>(es: Seq<(Seq<char>, V)>) -> Map<Seq<char>, V>
    decreases es.len(),
{
    if es.len() == 0 {
        Map::empty()
    } else {
        entry_map(es.drop_last()).insert(es.last().0, es.last().1)
    }
}

/// The object of strings that `json` writes; empty where it writes no such object.
pub open spec fn json_texts(json: Seq<char>) -> Map<Seq<char>, Seq<char>> {
    match json_text_entries(json) {
        Some(es) => entry_map(es),
        None => Map::empty(),
    }
}

/// The object of lists of strings that `json` writes; empty where it writes no such
/// object.
pub open spec fn json_lists(json: Seq<char>) -> Map<Seq<char>, Seq<Seq<char>>> {
    match json_list_entries(json) {
        Some(es) => entry_map(es),
        None => Map::empty(),
    }
}

/// An object of strings as a map.
pub fn texts(json: &str) -> (r: TextMap<String>)
    ensures
        r.deep_view() == json_texts(json@),
{
    let es = match text_entries(json) {
        Some(es) => es,
        None => {
            return TextMap::new();
        },
    };
    let ghost d = es.deep_view();
    let mut out: TextMap<String> = TextMap::new();
    let mut i: usize = 0;
    while i < es.len()
        invariant
            i <= es.len(),
            d == es.deep_view(),
            out.deep_view() == entry_map(d.take(i as int)),
        decreases es.len() - i,
    {
        broadcast use take_next;

        assert(d[i as int] == (es@[i as int].0@, es@[i as int].1@));
        assert(d.take(i + 1).last() == d[i as int]);
        out.insert(es[i].0.clone(), es[i].1.clone());
        i += 1;
    }
    broadcast use take_all;

    assert(d.take(i as int) == d);
    out
}

/// An object of lists of strings as a map.
pub fn lists(json: &str) -> (r: TextMap<Vec<String>>)
    ensures
        r.deep_view() == json_lists(json@),
{
    let es = match list_entries(json) {
        Some(es) => es,
        None => {
            return TextMap::new();
        },
    };
    let ghost d = es.deep_view();
    let mut out: TextMap<Vec<String>> = TextMap::new();
    let mut i: usize = 0;
    while i < es.len()
        invariant
            i <= es.len(),
            d == es.deep_view(),
            out.deep_view() == entry_map(d.take(i as int)),
        decreases es.len() - i,
    {
        broadcast use take_next;

        assert(d[i as int] == (es@[i as int].0@, es@[i as int].1.deep_view()));
        assert(d.take(i + 1).last() == d[i as int]);
        out.insert(es[i].0.clone(), es[i].1.clone());
        i += 1;
    }
    broadcast use take_all;

    assert(d.take(i as int) == d);
    out
}

} // verus!
