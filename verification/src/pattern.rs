//! Regular-expression matches as plain values.
use crate::text::lowered;
use vstd::prelude::*;
use vstd::utf8::{
    decode_utf8, encode_utf8, encode_utf8_decode_utf8, encode_utf8_valid_utf8, is_char_boundary,
    is_char_boundary_iff_not_is_continuation_byte, is_char_boundary_start_end_of_seq,
};

verus! {

pub const FROM: &'static str = r"(?is)\bfrom\s+([`\w.]+)";

pub const JOIN: &'static str = r"(?is)\bjoin\s+([`\w.]+)";

pub const INSERT: &'static str = r"(?is)\binsert\s+(?:ignore\s+)?into\s+([`\w.]+)";

/// `ON DUPLICATE KEY UPDATE col = ...` is an upsert clause, not a statement: the
/// identifier after `UPDATE` is a column. MySQL upserts are everywhere in these
/// mappers, so without this guard every upserted column becomes a phantom table.
pub const UPDATE: &'static str = r"(?is)(?:\bon\s+duplicate\s+key\s+)?\bupdate\s+([`\w.]+)";

/// Matches only the upsert form, so its range can be claimed and skipped.
pub const DUP_UPDATE: &'static str = r"(?is)\bon\s+duplicate\s+key\s+update\s+([`\w.]+)";

pub const DELETE: &'static str = r"(?is)\bdelete\s+from\s+([`\w.]+)";

pub const REPLACE: &'static str = r"(?is)\breplace\s+into\s+([`\w.]+)";

/// `${key}` or `${key:default}`.
pub const PLACEHOLDER: &'static str = r"\$\{([^}:]+)(?::([^}]*))?\}";

/// The patterns above that carry the flag `i`: letters match in either case.
pub open spec fn ignores_case(pattern: Seq<char>) -> bool {
    ||| pattern == FROM@
    ||| pattern == JOIN@
    ||| pattern == INSERT@
    ||| pattern == UPDATE@
    ||| pattern == DUP_UPDATE@
    ||| pattern == DELETE@
    ||| pattern == REPLACE@
}

/// The patterns above: each is a well-formed regular expression.
pub open spec fn is_known(pattern: Seq<char>) -> bool {
    ignores_case(pattern) || pattern == PLACEHOLDER@
}

/// One match: its byte range in the text, and the text of each capture group that
/// took part, the whole match being group zero.
#[derive(Debug)]
pub struct Found {
    pub start: usize,
    pub end: usize,
    pub groups: Vec<Option<String>>,
}

/// The content of a [`Found`].
#[verifier::ext_equal]
pub struct FoundView {
    pub start: usize,
    pub end: usize,
    pub groups: Seq<Option<Seq<char>>>,
}

impl DeepView for Found {
    type V = FoundView;

    open spec fn deep_view(&self) -> FoundView {
        FoundView {
            start: self.start,
            end: self.end,
            groups: self.groups.deep_view(),
        }
    }
}

impl Clone for Found {
    fn clone(&self) -> (r: Self)
        ensures
            r.deep_view() == self.deep_view(),
    {
        Found {
            start: self.start,
            end: self.end,
            groups: self.groups.clone(),
        }
    }
}

/// The text of the match's group `i`.
pub open spec fn group_of(f: FoundView, i: int) -> Option<Seq<char>> {
    if 0 <= i < f.groups.len() {
        f.groups[i]
    } else {
        None
    }
}

impl Found {
    pub fn group(&self, i: usize) -> (r: Option<&String>)
        ensures
            r.deep_view() == group_of(self.deep_view(), i as int),
    {
        if i < self.groups.len() {
            assert(self.groups.deep_view()[i as int] == self.groups@[i as int].deep_view());
            self.groups[i].as_ref()
        } else {
            None
        }
    }
}

/// Whether `from..to` is a range of bytes of `text` that cuts no character.
pub open spec fn is_range(text: Seq<char>, from: int, to: int) -> bool {
    let bytes = encode_utf8(text);
    &&& 0 <= from <= to <= bytes.len()
    &&& is_char_boundary(bytes, from)
    &&& is_char_boundary(bytes, to)
}

/// Whether the matches are ranges of `text`, one after the other.
pub open spec fn in_sequence(ms: Seq<FoundView>, text: Seq<char>) -> bool {
    &&& forall|i: int|
        0 <= i < ms.len() ==> is_range(text, (#[trigger] ms[i]).start as int, ms[i].end as int)
    &&& forall|i: int, j: int|
        0 <= i < j < ms.len() ==> (#[trigger] ms[i]).end <= (#[trigger] ms[j]).start
}

/// The text of a group in lower case.
pub open spec fn lowered_group(g: Option<Seq<char>>) -> Option<Seq<char>> {
    match g {
        Some(s) => Some(lowered(s)),
        None => None,
    }
}

/// Whether two lists of matches stand at the same places, their groups differing at most
/// in the case of ASCII letters.
pub open spec fn same_but_case(a: Seq<FoundView>, b: Seq<FoundView>) -> bool {
    &&& a.len() == b.len()
    &&& forall|i: int|
        0 <= i < a.len() ==> {
            &&& (#[trigger] a[i]).start == b[i].start
            &&& a[i].end == b[i].end
            &&& forall|k: int|
                lowered_group(#[trigger] group_of(a[i], k)) == lowered_group(group_of(b[i], k))
        }
}

/// The matches of `pattern` in `text`.
pub uninterp spec fn matches_of(pattern: Seq<char>, text: Seq<char>) -> Seq<FoundView>;

/// `regex::Regex::captures_iter` yields the successive non-overlapping matches of
/// the pattern, leftmost first; their offsets lie on character boundaries. Where the
/// pattern carries the flag `i`, letters match in either case, so a text that differs in
/// the case of ASCII letters only is matched at the same places.
#[verifier::external_body]
pub(crate) fn find_all(pattern: &str, text: &str) -> (r: Vec<Found>)
    requires
        is_known(pattern@),
    ensures
        r.deep_view() == matches_of(pattern@, text@),
        in_sequence(r.deep_view(), text@),
        ignores_case(pattern@) ==> forall|t: Seq<char>|
            lowered(t) == lowered(text@) ==> same_but_case(
                #[trigger] matches_of(pattern@, t),
                r.deep_view(),
            ),
{
    let re = regex::Regex::new(pattern).unwrap();
    re.captures_iter(text).map(|c| Found {
        start: c.get(0).unwrap().start(),
        end: c.get(0).unwrap().end(),
        groups: c.iter().map(|g| g.map(|m| m.as_str().to_string())).collect(),
    }).collect()
}

/// The characters of `text` whose bytes are `from..to`.
pub open spec fn between(text: Seq<char>, from: int, to: int) -> Seq<char> {
    decode_utf8(encode_utf8(text).subrange(from, to))
}

/// The part of `text` with the bytes `from..to`.
pub fn slice<'a>(text: &'a str, from: usize, to: usize) -> (r: &'a str)
    requires
        is_range(text@, from as int, to as int),
    ensures
        r@ == between(text@, from as int, to as int),
{
    let (head, _) = text.split_at(to);
    let ghost b = encode_utf8(text@);
    let ghost h = encode_utf8(head@);
    proof {
        encode_utf8_valid_utf8(text@);
        encode_utf8_valid_utf8(head@);
        is_char_boundary_start_end_of_seq(h);
        if from < to {
            is_char_boundary_iff_not_is_continuation_byte(b, from as int);
            is_char_boundary_iff_not_is_continuation_byte(h, from as int);
            assert(h[from as int] == b[from as int]);
        }
    }
    let (_, part) = head.split_at(from);
    proof {
        assert(encode_utf8(part@) =~= b.subrange(from as int, to as int));
        encode_utf8_decode_utf8(part@);
    }
    part
}

} // verus!

